//! Avatar figure strings: `.`-separated sets, each `type-id-colour...`.

use vstd::prelude::*;
use std::collections::HashSet;
use crate::config::{find_from, parse_i32, parse_i32_chars};
use crate::hex_utils::{chars_of, string_of};

verus! {

broadcast use vstd::std_specs::hash::group_hash_axioms;

/// Pieces of `s` between separators `sep` (at least one piece).
pub open spec fn split_seq(s: Seq<char>, sep: char) -> Seq<Seq<char>>
    decreases s.len(),
{
    match find_from(s, sep, 0) {
        None => seq![s],
        Some(i) => if i < s.len() {
            seq![s.take(i as int)] + split_seq(s.skip(i + 1 as int), sep)
        } else {
            seq![s]
        },
    }
}

pub open spec fn views(v: Seq<Vec<char>>) -> Seq<Seq<char>> {
    Seq::new(v.len(), |i: int| v[i]@)
}

/// Splits `s` at every `sep`.
fn split_chars(s: &Vec<char>, sep: char) -> (r: Vec<Vec<char>>)
    ensures
        views(r@) == split_seq(s@, sep),
{
    let mut out: Vec<Vec<char>> = Vec::new();
    let mut start: usize = 0;
    proof {
        assert(s@.skip(0) =~= s@);
        assert(views(out@) + split_seq(s@.skip(0), sep) =~= split_seq(s@, sep));
    }
    loop
        invariant_except_break
            start <= s@.len(),
            views(out@) + split_seq(s@.skip(start as int), sep) == split_seq(s@, sep),
        ensures
            views(out@) == split_seq(s@, sep),
        decreases s@.len() - start,
    {
        let ghost rest = s@.skip(start as int);
        let mut end: usize = start;
        while end < s.len() && s[end] != sep
            invariant
                start <= end <= s@.len(),
                rest == s@.skip(start as int),
                find_from(rest, sep, 0) == find_from(rest, sep, (end - start) as nat),
            decreases s@.len() - end,
        {
            end = end + 1;
        }
        let mut piece: Vec<char> = Vec::new();
        let mut k: usize = start;
        while k < end
            invariant
                start <= k <= end,
                end <= s@.len(),
                piece@ == s@.subrange(start as int, k as int),
            decreases end - k,
        {
            piece.push(s[k]);
            k = k + 1;
            assert(piece@ =~= s@.subrange(start as int, k as int));
        }
        let ghost before = views(out@);
        out.push(piece);
        proof {
            assert(views(out@) =~= before.push(s@.subrange(start as int, end as int)));
        }
        if end >= s.len() {
            proof {
                assert(find_from(rest, sep, 0) is None);
                assert(rest =~= s@.subrange(start as int, end as int));
                assert(views(out@) =~= before + split_seq(rest, sep));
            }
            break;
        }
        proof {
            assert(find_from(rest, sep, 0) == Some((end - start) as nat));
            assert(rest.take((end - start) as int) =~= s@.subrange(start as int, end as int));
            assert(rest.skip((end - start) + 1) =~= s@.skip(end + 1));
            assert(views(out@) + split_seq(s@.skip(end + 1), sep) =~= before + split_seq(
                rest,
                sep,
            ));
        }
        start = end + 1;
    }
    out
}

/// Type and first id of a set: its pieces at `-`, the second one empty if
/// missing.
pub open spec fn set_entry(set: Seq<char>) -> (Seq<char>, Seq<char>) {
    let p = split_seq(set, '-');
    (
        p[0],
        if p.len() > 1 {
            p[1]
        } else {
            Seq::empty()
        },
    )
}

/// Index of the entry of `k`, searching from `i`.
pub open spec fn key_index(es: Seq<(Seq<char>, Seq<char>)>, k: Seq<char>, i: nat) -> Option<nat>
    decreases es.len() - i,
{
    if i >= es.len() {
        None
    } else if es[i as int].0 == k {
        Some(i)
    } else {
        key_index(es, k, i + 1)
    }
}

/// Sets the value of `k`: in place if it has an entry, else at the end.
pub open spec fn assoc_insert(es: Seq<(Seq<char>, Seq<char>)>, k: Seq<char>, v: Seq<char>) -> Seq<
    (Seq<char>, Seq<char>),
> {
    match key_index(es, k, 0) {
        Some(i) => es.update(i as int, (k, v)),
        None => es.push((k, v)),
    }
}

pub open spec fn bits_of_sets(sets: Seq<Seq<char>>) -> Seq<(Seq<char>, Seq<char>)>
    decreases sets.len(),
{
    if sets.len() == 0 {
        Seq::empty()
    } else {
        let (k, v) = set_entry(sets.last());
        assoc_insert(bits_of_sets(sets.drop_last()), k, v)
    }
}

/// Type and id of every set of a figure, in order of first appearance; a
/// later set of the same type gives its id.
pub open spec fn figure_bits(looks: Seq<char>) -> Seq<(Seq<char>, Seq<char>)> {
    bits_of_sets(split_seq(looks, '.'))
}

pub open spec fn entry_selected(e: (Seq<char>, Seq<char>), limit: Option<Seq<Seq<char>>>) -> bool {
    match limit {
        None => true,
        Some(l) => l.contains(e.0),
    }
}

/// `type-id.` for each selected entry, in order.
pub open spec fn render(es: Seq<(Seq<char>, Seq<char>)>, limit: Option<Seq<Seq<char>>>) -> Seq<char>
    decreases es.len(),
{
    if es.len() == 0 {
        Seq::empty()
    } else {
        render(es.drop_last(), limit) + if entry_selected(es.last(), limit) {
            es.last().0 + seq!['-'] + es.last().1 + seq!['.']
        } else {
            Seq::empty()
        }
    }
}

/// The sets of both figures that their limits let through, first figure
/// first, without the final `.`.
pub open spec fn merged_figure(
    f1: Seq<char>,
    f2: Seq<char>,
    l1: Option<Seq<Seq<char>>>,
    l2: Option<Seq<Seq<char>>>,
) -> Seq<char> {
    let out = render(figure_bits(f1), l1) + render(figure_bits(f2), l2);
    if out.len() > 0 && out.last() == '.' {
        out.drop_last()
    } else {
        out
    }
}

pub open spec fn string_views(l: Seq<String>) -> Seq<Seq<char>> {
    Seq::new(l.len(), |i: int| l[i]@)
}

pub open spec fn limit_view(l: Option<&[String]>) -> Option<Seq<Seq<char>>> {
    match l {
        None => None,
        Some(s) => Some(string_views(s@)),
    }
}

/// The set's id, read as an `i32`, is in the blacklist.
pub open spec fn set_blacklisted(set: Seq<char>, blacklist: Set<i32>) -> bool {
    let pieces = split_seq(set, '-');
    pieces.len() >= 2 && match parse_i32_chars(pieces[1]) {
        Some(id) => blacklist.contains(id),
        None => false,
    }
}

/// Some set has an id in the blacklist.
pub open spec fn blacklisted(sets: Seq<Seq<char>>, blacklist: Set<i32>) -> bool {
    exists|i: int| 0 <= i < sets.len() && set_blacklisted(#[trigger] sets[i], blacklist)
}

pub struct FigureUtil;

impl FigureUtil {
    /// Type and id of each set of `looks`, in order of first appearance.
    pub fn get_figure_bits(looks: &str) -> (r: Vec<(String, String)>)
        ensures
            r@.len() == figure_bits(looks@).len(),
            forall|i: int|
                0 <= i < r@.len() ==> (#[trigger] r@[i]).0@ == figure_bits(looks@)[i].0
                    && r@[i].1@ == figure_bits(looks@)[i].1,
    {
        let bits = Self::figure_bits_chars(&chars_of(looks));
        let mut out: Vec<(String, String)> = Vec::new();
        let mut i: usize = 0;
        while i < bits.len()
            invariant
                i <= bits@.len(),
                out@.len() == i,
                forall|j: int|
                    0 <= j < i ==> (#[trigger] out@[j]).0@ == bits@[j].0@ && out@[j].1@
                        == bits@[j].1@,
            decreases bits@.len() - i,
        {
            out.push((string_of(&bits[i].0), string_of(&bits[i].1)));
            i = i + 1;
        }
        out
    }

    fn figure_bits_chars(looks: &Vec<char>) -> (r: Vec<(Vec<char>, Vec<char>)>)
        ensures
            r@.len() == figure_bits(looks@).len(),
            forall|i: int|
                0 <= i < r@.len() ==> (#[trigger] r@[i]).0@ == figure_bits(looks@)[i].0
                    && r@[i].1@ == figure_bits(looks@)[i].1,
    {
        let sets = split_chars(looks, '.');
        let ghost ss = split_seq(looks@, '.');
        let mut bits: Vec<(Vec<char>, Vec<char>)> = Vec::new();
        let mut i: usize = 0;
        while i < sets.len()
            invariant
                i <= sets@.len(),
                views(sets@) == ss,
                bits@.len() == bits_of_sets(ss.take(i as int)).len(),
                forall|j: int|
                    0 <= j < bits@.len() ==> (#[trigger] bits@[j]).0@ == bits_of_sets(
                        ss.take(i as int),
                    )[j].0 && bits@[j].1@ == bits_of_sets(ss.take(i as int))[j].1,
            decreases sets@.len() - i,
        {
            let pieces = split_chars(&sets[i], '-');
            proof {
                assert(sets@[i as int]@ == ss[i as int]);
                assert(ss.take(i + 1).drop_last() =~= ss.take(i as int));
                assert(ss.take(i + 1).last() == ss[i as int]);
                lemma_split_nonempty(ss[i as int], '-');
            }
            let key = pieces[0].clone();
            let value = if pieces.len() > 1 {
                pieces[1].clone()
            } else {
                Vec::new()
            };
            proof {
                assert(key@ == pieces@[0]@);
                assert(views(pieces@)[0] == pieces@[0]@);
                if pieces@.len() > 1 {
                    assert(views(pieces@)[1] == pieces@[1]@);
                }
            }
            let ghost prev = bits_of_sets(ss.take(i as int));
            let mut found: usize = 0;
            while found < bits.len() && !same_chars(&bits[found].0, &key)
                invariant
                    found <= bits@.len(),
                    bits@.len() == prev.len(),
                    forall|j: int|
                        0 <= j < bits@.len() ==> (#[trigger] bits@[j]).0@ == prev[j].0
                            && bits@[j].1@ == prev[j].1,
                    key_index(prev, key@, 0) == key_index(prev, key@, found as nat),
                decreases bits@.len() - found,
            {
                found = found + 1;
            }
            if found < bits.len() {
                let ghost old_bits = bits@;
                bits.set(found, (key, value));
                proof {
                    assert(key_index(prev, key@, 0) == Some(found as nat));
                }
            } else {
                bits.push((key, value));
                proof {
                    assert(key_index(prev, key@, 0) is None);
                }
            }
            i = i + 1;
        }
        proof {
            assert(ss.take(sets@.len() as int) =~= ss);
        }
        bits
    }

    pub fn merge_figures(figure1: &str, figure2: &str) -> (r: String)
        ensures
            r@ == merged_figure(figure1@, figure2@, None, None),
    {
        Self::merge_figures_with_limits(figure1, figure2, None, None)
    }

    pub fn merge_figures_with_limit_1(
        figure1: &str,
        figure2: &str,
        limit_figure1: Option<&[String]>,
    ) -> (r: String)
        ensures
            r@ == merged_figure(figure1@, figure2@, limit_view(limit_figure1), None),
    {
        Self::merge_figures_with_limits(figure1, figure2, limit_figure1, None)
    }

    fn limit_allows(limit: Option<&[String]>, key: &Vec<char>) -> (r: bool)
        ensures
            r == entry_selected((key@, Seq::empty()), limit_view(limit)),
    {
        match limit {
            None => true,
            Some(l) => {
                let k = string_of(key);
                let mut i: usize = 0;
                while i < l.len()
                    invariant
                        limit == Some(l),
                        i <= l@.len(),
                        k@ == key@,
                        forall|j: int| 0 <= j < i ==> l@[j]@ != key@,
                    decreases l@.len() - i,
                {
                    if l[i] == k {
                        proof {
                            assert(l@[i as int]@ == k@);
                            assert(string_views(l@)[i as int] == key@);
                            assert(string_views(l@).contains(key@));
                            assert(limit_view(limit) == Some(string_views(l@)));
                            assert(entry_selected((key@, Seq::<char>::empty()), limit_view(limit)));
                        }
                        return true;
                    }
                    i = i + 1;
                }
                proof {
                    assert(!string_views(l@).contains(key@)) by {
                        if string_views(l@).contains(key@) {
                            let j = choose|j: int|
                                0 <= j < string_views(l@).len() && string_views(l@)[j] == key@;
                            assert(l@[j]@ == key@);
                        }
                    }
                }
                false
            },
        }
    }

    /// Appends `type-id.` for each entry of `bits` that `limit` lets through.
    fn render_into(
        out: &mut Vec<char>,
        bits: &Vec<(Vec<char>, Vec<char>)>,
        limit: Option<&[String]>,
        ghost_bits: Ghost<Seq<(Seq<char>, Seq<char>)>>,
    )
        requires
            bits@.len() == ghost_bits@.len(),
            forall|j: int|
                0 <= j < bits@.len() ==> (#[trigger] bits@[j]).0@ == ghost_bits@[j].0
                    && bits@[j].1@ == ghost_bits@[j].1,
        ensures
            final(out)@ == old(out)@ + render(ghost_bits@, limit_view(limit)),
    {
        let ghost es = ghost_bits@;
        let ghost start = out@;
        let mut i: usize = 0;
        while i < bits.len()
            invariant
                i <= bits@.len(),
                bits@.len() == es.len(),
                forall|j: int|
                    0 <= j < bits@.len() ==> (#[trigger] bits@[j]).0@ == es[j].0 && bits@[j].1@
                        == es[j].1,
                out@ == start + render(es.take(i as int), limit_view(limit)),
            decreases bits@.len() - i,
        {
            let ghost before = out@;
            proof {
                assert(es.take(i + 1).drop_last() =~= es.take(i as int));
                assert(es.take(i + 1).last() == es[i as int]);
            }
            if Self::limit_allows(limit, &bits[i].0) {
                let key = &bits[i].0;
                let value = &bits[i].1;
                let mut k: usize = 0;
                while k < key.len()
                    invariant
                        k <= key@.len(),
                        out@ == before + key@.take(k as int),
                    decreases key@.len() - k,
                {
                    out.push(key[k]);
                    k = k + 1;
                    assert(out@ =~= before + key@.take(k as int));
                }
                out.push('-');
                let ghost mid = out@;
                let mut k2: usize = 0;
                while k2 < value.len()
                    invariant
                        k2 <= value@.len(),
                        out@ == mid + value@.take(k2 as int),
                    decreases value@.len() - k2,
                {
                    out.push(value[k2]);
                    k2 = k2 + 1;
                    assert(out@ =~= mid + value@.take(k2 as int));
                }
                out.push('.');
                proof {
                    assert(key@.take(key@.len() as int) =~= key@);
                    assert(value@.take(value@.len() as int) =~= value@);
                    assert(out@ =~= before + (es[i as int].0 + seq!['-'] + es[i as int].1 + seq![
                        '.',
                    ]));
                }
            } else {
                proof {
                    assert(before + Seq::<char>::empty() =~= before);
                }
            }
            i = i + 1;
        }
        proof {
            assert(es.take(bits@.len() as int) =~= es);
        }
    }

    /// The sets of both figures that the limits let through (all when a
    /// limit is `None`), first figure first, joined by `.`.
    pub fn merge_figures_with_limits(
        figure1: &str,
        figure2: &str,
        limit_figure1: Option<&[String]>,
        limit_figure2: Option<&[String]>,
    ) -> (r: String)
        ensures
            r@ == merged_figure(
                figure1@,
                figure2@,
                limit_view(limit_figure1),
                limit_view(limit_figure2),
            ),
    {
        let bits1 = Self::figure_bits_chars(&chars_of(figure1));
        let bits2 = Self::figure_bits_chars(&chars_of(figure2));
        let mut out: Vec<char> = Vec::new();
        Self::render_into(&mut out, &bits1, limit_figure1, Ghost(figure_bits(figure1@)));
        Self::render_into(&mut out, &bits2, limit_figure2, Ghost(figure_bits(figure2@)));
        proof {
            assert(Seq::<char>::empty() + render(figure_bits(figure1@), limit_view(limit_figure1))
                =~= render(figure_bits(figure1@), limit_view(limit_figure1)));
        }
        if out.len() > 0 && out[out.len() - 1] == '.' {
            out.pop();
        }
        string_of(&out)
    }

    /// Whether some set of `figure` has an id in `blacklist`.
    pub fn has_blacklisted_clothing(figure: &str, blacklist: &HashSet<i32>) -> (r: bool)
        ensures
            r == blacklisted(split_seq(figure@, '.'), blacklist@),
    {
        let sets = split_chars(&chars_of(figure), '.');
        let ghost ss = split_seq(figure@, '.');
        let mut i: usize = 0;
        while i < sets.len()
            invariant
                i <= sets@.len(),
                views(sets@) == ss,
                ss == split_seq(figure@, '.'),
                forall|j: int| 0 <= j < i ==> !set_blacklisted(#[trigger] ss[j], blacklist@),
            decreases sets@.len() - i,
        {
            let pieces = split_chars(&sets[i], '-');
            proof {
                assert(sets@[i as int]@ == ss[i as int]);
            }
            if pieces.len() >= 2 {
                proof {
                    assert(views(pieces@)[1] == pieces@[1]@);
                }
                let id_text = string_of(&pieces[1]);
                match parse_i32(id_text.as_str()) {
                    Some(id) => {
                        if blacklist.contains(&id) {
                            proof {
                                assert(id_text@ == split_seq(ss[i as int], '-')[1]);
                                assert(set_blacklisted(ss[i as int], blacklist@));
                                assert(blacklisted(ss, blacklist@));
                            }
                            return true;
                        }
                    },
                    None => {},
                }
            }
            i = i + 1;
        }
        false
    }
}

fn same_chars(a: &Vec<char>, b: &Vec<char>) -> (r: bool)
    ensures
        r == (a@ == b@),
{
    if a.len() != b.len() {
        return false;
    }
    let mut i: usize = 0;
    while i < a.len()
        invariant
            a@.len() == b@.len(),
            i <= a@.len(),
            forall|j: int| 0 <= j < i ==> a@[j] == b@[j],
        decreases a@.len() - i,
    {
        if a[i] != b[i] {
            return false;
        }
        i = i + 1;
    }
    assert(a@ =~= b@);
    true
}

proof fn lemma_split_nonempty(s: Seq<char>, sep: char)
    ensures
        split_seq(s, sep).len() >= 1,
    decreases s.len(),
{
    match find_from(s, sep, 0) {
        None => {},
        Some(i) => {
            if i < s.len() {
                lemma_split_nonempty(s.skip(i + 1 as int), sep);
            }
        },
    }
}

} // verus!
