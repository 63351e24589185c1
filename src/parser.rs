//! Reading a map: one colony per line that holds any word, its name first,
//! then tunnels written `direction=target`.

use crate::colony::{direction_named, Colony, Direction};
use crate::text::{lower_of, split_pair, split_at_equals, split_words, words_of};
use vstd::prelude::*;

verus! {

/// The lines among the first `k` that hold any word, in order.
pub open spec fn entries_upto(lines: Seq<Seq<Seq<char>>>, k: int) -> Seq<Seq<Seq<char>>>
    decreases k,
{
    if k <= 0 {
        Seq::empty()
    } else if lines[k - 1].len() > 0 {
        entries_upto(lines, k - 1).push(lines[k - 1])
    } else {
        entries_upto(lines, k - 1)
    }
}

/// The lines, split into words, that describe a colony each.
pub open spec fn entries(lines: Seq<Seq<Seq<char>>>) -> Seq<Seq<Seq<char>>> {
    entries_upto(lines, lines.len() as int)
}

/// The colony names: the first word of each entry.
pub open spec fn entry_names(entries: Seq<Seq<Seq<char>>>) -> Seq<Seq<char>> {
    entries.map_values(|e: Seq<Seq<char>>| e[0])
}

/// The last place below `k` where `names` holds `name`.
pub open spec fn last_index(names: Seq<Seq<char>>, name: Seq<char>, k: int) -> Option<int>
    decreases k,
{
    if k <= 0 {
        None
    } else if names[k - 1] == name {
        Some(k - 1)
    } else {
        last_index(names, name, k - 1)
    }
}

/// The tunnel slots once `token` is read: a `direction=target` token whose
/// direction is known and whose target names a colony opens that tunnel;
/// any other token changes nothing.
pub open spec fn read_token(
    slots: Seq<Option<usize>>,
    token: Seq<char>,
    names: Seq<Seq<char>>,
) -> Seq<Option<usize>> {
    match split_at_equals(token) {
        Some((d, t)) => match direction_named(lower_of(d)) {
            Some(dir) => match last_index(names, t, names.len() as int) {
                Some(j) => slots.update(dir.index(), Some(j as usize)),
                None => slots,
            },
            None => slots,
        },
        None => slots,
    }
}

/// The tunnel slots of an entry once its words from the second up to the
/// `k`-th are read.
pub open spec fn read_tunnels(entry: Seq<Seq<char>>, names: Seq<Seq<char>>, k: int) -> Seq<
    Option<usize>,
>
    decreases k,
{
    if k <= 1 {
        seq![None::<usize>, None, None, None]
    } else {
        read_token(read_tunnels(entry, names, k - 1), entry[k - 1], names)
    }
}

/// Lines of words seen as text.
pub open spec fn words_view(lines: Seq<Vec<String>>) -> Seq<Seq<Seq<char>>> {
    lines.map_values(|l: Vec<String>| l@.map_values(|w: String| w@))
}

/// `colonies` is the map that the lines of words `lines` describe: one
/// fresh colony per entry, named by its first word, with the tunnels its
/// other words open, targets found by name (the last colony of that name).
pub open spec fn describes(lines: Seq<Seq<Seq<char>>>, colonies: Seq<Colony>) -> bool {
    let es = entries(lines);
    &&& colonies.len() == es.len()
    &&& forall|c: int|
        0 <= c < colonies.len() ==> {
            let col = #[trigger] colonies[c];
            &&& col.wf()
            &&& col.spec_name()@ == es[c][0]
            &&& col.tunnels() == read_tunnels(es[c], entry_names(es), es[c].len() as int)
            &&& col.resident() is None
            &&& !col.destroyed()
        }
}

/// The last place in `names` that holds `name`.
fn find_last(names: &Vec<String>, name: &String) -> (r: Option<usize>)
    ensures
        r matches Some(j) ==> last_index(names@.map_values(|w: String| w@), name@, names@.len() as int)
            == Some(j as int),
        r is None ==> last_index(names@.map_values(|w: String| w@), name@, names@.len() as int) is None,
{
    let ghost view = names@.map_values(|w: String| w@);
    let mut k: usize = names.len();
    while k > 0
        invariant
            k <= names@.len(),
            view == names@.map_values(|w: String| w@),
            last_index(view, name@, names@.len() as int) == last_index(view, name@, k as int),
        decreases k,
    {
        if names[k - 1] == *name {
            return Some(k - 1);
        }
        k = k - 1;
    }
    None
}

/// Builds the colonies that lines of words describe: see `describes`.
pub fn build_colonies(lines: &Vec<Vec<String>>) -> (r: Vec<Colony>)
    ensures
        describes(words_view(lines@), r@),
{
    let ghost wl = words_view(lines@);
    let mut kept: Vec<usize> = Vec::new();
    let mut names: Vec<String> = Vec::new();
    let mut colonies: Vec<Colony> = Vec::new();
    let mut i: usize = 0;
    while i < lines.len()
        invariant
            wl == words_view(lines@),
            i <= lines@.len(),
            kept@.len() == entries_upto(wl, i as int).len(),
            names@.len() == kept@.len(),
            colonies@.len() == kept@.len(),
            forall|c: int|
                0 <= c < kept@.len() ==> #[trigger] kept@[c] < lines@.len() && wl[kept@[c] as int]
                    == entries_upto(wl, i as int)[c],
            forall|c: int|
                0 <= c < kept@.len() ==> (#[trigger] names@[c])@ == entries_upto(wl, i as int)[c][0],
            forall|c: int|
                0 <= c < kept@.len() ==> {
                    let col = #[trigger] colonies@[c];
                    &&& col.wf()
                    &&& col.spec_name()@ == names@[c]@
                    &&& col.tunnels() == seq![None::<usize>, None, None, None]
                    &&& col.resident() is None
                    &&& !col.destroyed()
                },
        decreases lines@.len() - i,
    {
        let ghost prev = entries_upto(wl, i as int);
        assert(wl[i as int] == lines@[i as int]@.map_values(|w: String| w@));
        if lines[i].len() > 0 {
            let name = lines[i][0].clone();
            kept.push(i);
            colonies.push(Colony::new(name.clone()));
            names.push(name);
            assert(entries_upto(wl, i as int + 1) == prev.push(wl[i as int]));
            let ghost last = (kept@.len() - 1) as int;
            assert(wl[i as int][0] == lines@[i as int]@[0]@);
            assert(names@[last]@ == entries_upto(wl, i as int + 1)[last][0]);
            assert(wl[kept@[last] as int] == entries_upto(wl, i as int + 1)[last]);
        }
        assert forall|c: int| 0 <= c < prev.len() implies #[trigger] entries_upto(wl, i as int + 1)[c]
            == prev[c] by {}
        i = i + 1;
    }
    assert(wl.len() == lines@.len());
    let ghost es = entries(wl);
    let ghost nv = entry_names(es);
    assert(names@.map_values(|w: String| w@) =~= nv);
    let mut c: usize = 0;
    while c < colonies.len()
        invariant
            wl == words_view(lines@),
            es == entries(wl),
            nv == entry_names(es),
            names@.map_values(|w: String| w@) == nv,
            kept@.len() == es.len(),
            colonies@.len() == es.len(),
            c <= colonies@.len(),
            forall|k: int|
                0 <= k < kept@.len() ==> #[trigger] kept@[k] < lines@.len() && wl[kept@[k] as int]
                    == es[k],
            forall|k: int|
                0 <= k < colonies@.len() ==> {
                    let col = #[trigger] colonies@[k];
                    &&& col.wf()
                    &&& col.spec_name()@ == es[k][0]
                    &&& col.tunnels() == if k < c {
                        read_tunnels(es[k], nv, es[k].len() as int)
                    } else {
                        seq![None::<usize>, None, None, None]
                    }
                    &&& col.resident() is None
                    &&& !col.destroyed()
                },
        decreases colonies@.len() - c,
    {
        let words = &lines[kept[c]];
        assert(wl[kept@[c as int] as int] == es[c as int]);
        let mut k: usize = 1;
        while k < words.len()
            invariant
                es == entries(wl),
                nv == entry_names(es),
                names@.map_values(|w: String| w@) == nv,
                colonies@.len() == es.len(),
                c < colonies@.len(),
                1 <= k,
                k <= words@.len() || k == 1,
                words@.map_values(|w: String| w@) == es[c as int],
                forall|j: int|
                    0 <= j < colonies@.len() && j != c ==> {
                        let col = #[trigger] colonies@[j];
                        &&& col.wf()
                        &&& col.spec_name()@ == es[j][0]
                        &&& col.tunnels() == if j < c {
                            read_tunnels(es[j], nv, es[j].len() as int)
                        } else {
                            seq![None::<usize>, None, None, None]
                        }
                        &&& col.resident() is None
                        &&& !col.destroyed()
                    },
                colonies@[c as int].wf(),
                colonies@[c as int].spec_name()@ == es[c as int][0],
                colonies@[c as int].tunnels() == read_tunnels(es[c as int], nv, k as int),
                colonies@[c as int].resident() is None,
                !colonies@[c as int].destroyed(),
            decreases words@.len() - k,
        {
            let token = &words[k];
            assert(token@ == es[c as int][k as int]);
            if let Some((d, t)) = split_pair(token.as_str()) {
                if let Some(dir) = Direction::from_str(d.as_str()) {
                    if let Some(j) = find_last(&names, &t) {
                        colonies[c].add_tunnel(dir, j);
                    }
                }
            }
            k = k + 1;
        }
        proof {
            assert(words@.len() == es[c as int].len());
            if es[c as int].len() == 0 {
                assert(read_tunnels(es[c as int], nv, 0) == read_tunnels(es[c as int], nv, 1));
            }
        }
        c = c + 1;
    }
    colonies
}

/// Builds the colonies that the lines of a map file describe: see
/// `describes`, over the words of each line.
pub fn parse_map(lines: &Vec<String>) -> (r: Vec<Colony>)
    ensures
        describes(lines@.map_values(|l: String| words_of(l@)), r@),
{
    let mut word_lines: Vec<Vec<String>> = Vec::new();
    let mut i: usize = 0;
    while i < lines.len()
        invariant
            i <= lines@.len(),
            words_view(word_lines@) == lines@.take(i as int).map_values(|l: String| words_of(l@)),
        decreases lines@.len() - i,
    {
        let ghost before = word_lines@;
        word_lines.push(split_words(lines[i].as_str()));
        assert(words_view(word_lines@) =~= words_view(before).push(words_of(lines@[i as int]@)));
        assert(lines@.take(i as int + 1).map_values(|l: String| words_of(l@)) =~= lines@.take(
            i as int,
        ).map_values(|l: String| words_of(l@)).push(words_of(lines@[i as int]@)));
        i = i + 1;
    }
    assert(lines@.take(lines@.len() as int) =~= lines@);
    build_colonies(&word_lines)
}

} // verus!
