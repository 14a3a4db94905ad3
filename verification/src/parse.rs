use itertools::Itertools;
use vstd::prelude::*;

verus! {

use crate::text::chars_of;
use crate::text::contains_char;
use crate::text::is_ws;
use crate::text::seq_contains_char;
use crate::text::spec_split;
use crate::text::spec_take_until;
use crate::text::spec_trim;
use crate::text::split;
use crate::text::string_from_chars;
use crate::text::starts_with_char;
use crate::text::str_views;
use crate::text::subrange_of;
use crate::text::trim;
use crate::text::views;

// ---------------------------------------------------------------------------
// Curly-brace expansion
// ---------------------------------------------------------------------------

pub open spec fn all_ascii(s: Seq<char>) -> bool {
    forall|i: int| 0 <= i < s.len() ==> (s[i] as u32) < 128
}

fn ascii_exec(v: &Vec<char>) -> (r: bool)
    ensures
        r == all_ascii(v@),
{
    let mut i: usize = 0;
    while i < v.len()
        invariant
            i <= v@.len(),
            forall|j: int| 0 <= j < i ==> (v@[j] as u32) < 128,
        decreases v@.len() - i,
    {
        if (v[i] as u32) >= 128 {
            return false;
        }
        i = i + 1;
    }
    true
}

/// The positions of `{` and `}` in `s` from index `i` on.
pub open spec fn spec_brace_positions_from(s: Seq<char>, i: int) -> Seq<int>
    decreases s.len() - i,
{
    if i < 0 || i >= s.len() {
        Seq::empty()
    } else if s[i] == '{' || s[i] == '}' {
        seq![i] + spec_brace_positions_from(s, i + 1)
    } else {
        spec_brace_positions_from(s, i + 1)
    }
}

/// Scans braces left to right: `None` on a nested `{` or an unmatched
/// `}`, otherwise whether a `{` is still open at the end.
pub open spec fn spec_scan_braces(s: Seq<char>, i: int, open: bool) -> Option<bool>
    decreases s.len() - i,
{
    if i < 0 || i >= s.len() {
        Some(open)
    } else if s[i] == '{' {
        if open {
            None
        } else {
            spec_scan_braces(s, i + 1, true)
        }
    } else if s[i] == '}' {
        if !open {
            None
        } else {
            spec_scan_braces(s, i + 1, false)
        }
    } else {
        spec_scan_braces(s, i + 1, open)
    }
}

/// The braces pair up cleanly: `{` and `}` alternate, starting with `{`
/// and ending closed.
pub open spec fn spec_braces_balanced(s: Seq<char>) -> bool {
    spec_scan_braces(s, 0, false) == Some(false)
}

proof fn lemma_brace_positions_props(s: Seq<char>, i: int)
    requires
        0 <= i <= s.len(),
    ensures
        forall|k: int|
            0 <= k < spec_brace_positions_from(s, i).len() ==> i <= #[trigger] spec_brace_positions_from(
                s,
                i,
            )[k] < s.len(),
        forall|k: int, l: int|
            0 <= k < l < spec_brace_positions_from(s, i).len() ==> #[trigger] spec_brace_positions_from(
                s,
                i,
            )[k] < #[trigger] spec_brace_positions_from(s, i)[l],
    decreases s.len() - i,
{
    if i < s.len() {
        lemma_brace_positions_props(s, i + 1);
        let rest = spec_brace_positions_from(s, i + 1);
        let cur = spec_brace_positions_from(s, i);
        if s[i] == '{' || s[i] == '}' {
            assert(cur == seq![i] + rest);
            assert(cur[0] == i);
            assert(forall|k: int| 1 <= k < cur.len() ==> #[trigger] cur[k] == rest[k - 1]);
        } else {
            assert(cur == rest);
        }
    }
}

fn brace_scan(v: &Vec<char>) -> (r: (Vec<usize>, bool))
    ensures
        r.0@.map_values(|x: usize| x as int) == spec_brace_positions_from(v@, 0),
        r.1 == spec_braces_balanced(v@),
{
    let mut pos: Vec<usize> = Vec::new();
    let mut open: bool = false;
    let mut ok: bool = true;
    let mut i: usize = 0;
    while i < v.len()
        invariant
            i <= v@.len(),
            ok ==> spec_scan_braces(v@, 0, false) == spec_scan_braces(v@, i as int, open),
            !ok ==> spec_scan_braces(v@, 0, false) is None,
            spec_brace_positions_from(v@, 0) =~= pos@.map_values(|x: usize| x as int)
                + spec_brace_positions_from(v@, i as int),
        decreases v@.len() - i,
    {
        let ghost old_pos = pos@;
        if v[i] == '{' {
            if open {
                ok = false;
            }
            open = true;
            pos.push(i);
        } else if v[i] == '}' {
            if !open {
                ok = false;
            }
            open = false;
            pos.push(i);
        }
        proof {
            if pos@ != old_pos {
                assert(pos@.map_values(|x: usize| x as int) =~= old_pos.map_values(
                    |x: usize| x as int,
                ).push(i as int));
                assert(old_pos.map_values(|x: usize| x as int).push(i as int)
                    + spec_brace_positions_from(v@, i + 1) =~= old_pos.map_values(
                    |x: usize| x as int,
                ) + (seq![i as int] + spec_brace_positions_from(v@, i + 1)));
            }
        }
        i = i + 1;
    }
    proof {
        assert(spec_brace_positions_from(v@, v@.len() as int) =~= Seq::<int>::empty());
        assert(pos@.map_values(|x: usize| x as int) + Seq::<int>::empty() =~= pos@.map_values(
            |x: usize| x as int,
        ));
    }
    let balanced = ok && !open;
    (pos, balanced)
}

/// The text inside each brace pair.
pub open spec fn spec_items_from(s: Seq<char>, pos: Seq<int>) -> Seq<Seq<char>>
    decreases pos.len(),
{
    if pos.len() < 2 {
        Seq::empty()
    } else {
        seq![s.subrange(pos[0] + 1, pos[1])] + spec_items_from(s, pos.skip(2))
    }
}

/// The text between the brace pairs: before the first `{`, between a
/// `}` and the next `{`, and so on; the text after the last `}` is the
/// tail, handled separately.
pub open spec fn spec_remaining_from(s: Seq<char>, pos: Seq<int>, start: int) -> Seq<Seq<char>>
    decreases pos.len(),
{
    if pos.len() < 2 {
        Seq::empty()
    } else {
        seq![s.subrange(start, pos[0])] + spec_remaining_from(s, pos.skip(2), pos[1] + 1)
    }
}

/// `"\\,"` replaced by `"comma"`, left to right.
pub open spec fn spec_replace_escaped_comma(s: Seq<char>) -> Seq<char>
    decreases s.len(),
{
    if s.len() == 0 {
        s
    } else if s.len() >= 2 && s[0] == '\\' && s[1] == ',' {
        seq!['c', 'o', 'm', 'm', 'a'] + spec_replace_escaped_comma(s.skip(2))
    } else {
        seq![s[0]] + spec_replace_escaped_comma(s.skip(1))
    }
}

proof fn lemma_replace_comma_unfold(s: Seq<char>, i: int)
    requires
        0 <= i < s.len(),
    ensures
        (i + 1 < s.len() && s[i] == '\\' && s[i + 1] == ',') ==> spec_replace_escaped_comma(
            s.skip(i),
        ) == seq!['c', 'o', 'm', 'm', 'a'] + spec_replace_escaped_comma(s.skip(i + 2)),
        !(i + 1 < s.len() && s[i] == '\\' && s[i + 1] == ',') ==> spec_replace_escaped_comma(
            s.skip(i),
        ) == seq![s[i]] + spec_replace_escaped_comma(s.skip(i + 1)),
{
    let t = s.skip(i);
    assert(t.len() == s.len() - i);
    assert(t[0] == s[i]);
    if t.len() >= 2 {
        assert(t[1] == s[i + 1]);
    }
    assert(t.skip(1) =~= s.skip(i + 1));
    if t.len() >= 2 {
        assert(t.skip(2) =~= s.skip(i + 2));
    }
}

fn replace_escaped_comma(v: &Vec<char>) -> (r: Vec<char>)
    ensures
        r@ == spec_replace_escaped_comma(v@),
{
    let mut r: Vec<char> = Vec::new();
    let mut i: usize = 0;
    proof {
        assert(v@.skip(0) =~= v@);
    }
    while i < v.len()
        invariant
            i <= v@.len(),
            spec_replace_escaped_comma(v@) == r@ + spec_replace_escaped_comma(v@.skip(i as int)),
        decreases v@.len() - i,
    {
        proof {
            lemma_replace_comma_unfold(v@, i as int);
        }
        let ghost old_r = r@;
        if v[i] == '\\' && i + 1 < v.len() && v[i + 1] == ',' {
            r.push('c');
            r.push('o');
            r.push('m');
            r.push('m');
            r.push('a');
            proof {
                assert(r@ =~= old_r + seq!['c', 'o', 'm', 'm', 'a']);
                assert(old_r + (seq!['c', 'o', 'm', 'm', 'a'] + spec_replace_escaped_comma(
                    v@.skip(i + 2),
                )) =~= r@ + spec_replace_escaped_comma(v@.skip(i + 2)));
            }
            i = i + 2;
        } else {
            r.push(v[i]);
            proof {
                assert(old_r + (seq![v@[i as int]] + spec_replace_escaped_comma(v@.skip(i + 1)))
                    =~= r@ + spec_replace_escaped_comma(v@.skip(i + 1)));
            }
            i = i + 1;
        }
    }
    proof {
        assert(v@.skip(v@.len() as int) =~= Seq::<char>::empty());
        assert(spec_replace_escaped_comma(Seq::<char>::empty()) =~= Seq::<char>::empty());
        assert(r@ + Seq::<char>::empty() =~= r@);
    }
    r
}

/// An item of a brace group, expanded: a one-character range such as
/// `1-9` becomes one entry per character; anything else stays as it is.
pub open spec fn spec_expand_item(item: Seq<char>) -> Seq<Seq<char>> {
    if !seq_contains_char(item, '-') {
        seq![item]
    } else {
        let segs = spec_split(item, '-');
        let b = spec_trim(segs[0]);
        let e = spec_trim(segs[1]);
        if b.len() != 1 || e.len() != 1 || b[0] > '\x7f' || e[0] > '\x7f' || b[0] > e[0] || (b[0]
            as u8) > (e[0] as u8) {
            seq![item]
        } else {
            Seq::new(
                ((e[0] as u8) as int - (b[0] as u8) as int + 1) as nat,
                |k: int| seq![(((b[0] as u8) + k) as char)],
            )
        }
    }
}

fn expand_item(item: Vec<char>, out: &mut Vec<Vec<char>>)
    ensures
        views(final(out)@) == views(old(out)@) + spec_expand_item(item@),
{
    let ghost iv = item@;
    if !contains_char(&item, '-') {
        let ghost old_out = out@;
        out.push(item);
        proof {
            assert(views(out@) =~= views(old_out).push(iv));
            assert(views(old_out) + seq![iv] =~= views(old_out).push(iv));
        }
        return ;
    }
    let segs = split(&item, '-');
    proof {
        lemma_split_two(item@, '-');
        assert(views(segs@)[0] == segs@[0]@);
        assert(views(segs@)[1] == segs@[1]@);
    }
    let b = trim(&segs[0]);
    let e = trim(&segs[1]);
    if b.len() != 1 || e.len() != 1 {
        let ghost old_out = out@;
        out.push(item);
        proof {
            assert(views(out@) =~= views(old_out).push(iv));
            assert(views(old_out) + seq![iv] =~= views(old_out).push(iv));
        }
        return ;
    }
    let b0 = b[0];
    let e0 = e[0];
    let bb: u8 = b0 as u8;
    let ee: u8 = e0 as u8;
    if b0 > '\x7f' || e0 > '\x7f' || b0 > e0 || bb > ee {
        let ghost old_out = out@;
        out.push(item);
        proof {
            assert(views(out@) =~= views(old_out).push(iv));
            assert(views(old_out) + seq![iv] =~= views(old_out).push(iv));
        }
        return ;
    }
    let ghost range = Seq::new(
        ((e0 as u8) as int - (b0 as u8) as int + 1) as nat,
        |k: int| seq![(((b0 as u8) + k) as char)],
    );
    let ghost old_out = out@;
    proof {
        assert(bb == b0 as u8 && ee == e0 as u8);
        assert(range.take(0) =~= Seq::<Seq<char>>::empty());
        assert(views(old_out) + Seq::<Seq<char>>::empty() =~= views(old_out));
    }
    let count: usize = (ee - bb) as usize + 1;
    let mut k: usize = 0;
    while k < count
        invariant
            k <= count,
            count == ee - bb + 1,
            bb == b0 as u8,
            ee == e0 as u8,
            bb <= ee,
            range == Seq::new(
                ((e0 as u8) as int - (b0 as u8) as int + 1) as nat,
                |k: int| seq![(((b0 as u8) + k) as char)],
            ),
            range.len() == count,
            views(out@) =~= views(old_out) + range.take(k as int),
        decreases count - k,
    {
        let mut one: Vec<char> = Vec::new();
        one.push((bb + (k as u8)) as char);
        let ghost before = out@;
        out.push(one);
        proof {
            assert(range[k as int] == seq![(((b0 as u8) + k) as char)]);
            assert(one@ =~= range[k as int]);
            assert(views(out@) =~= views(before).push(range[k as int]));
            assert(range.take(k + 1) =~= range.take(k as int).push(range[k as int]));
            assert(views(old_out) + range.take(k + 1) =~= (views(old_out) + range.take(
                k as int,
            )).push(range[k as int]));
        }
        k = k + 1;
    }
    proof {
        assert(range.take(count as int) =~= range);
        assert(spec_expand_item(iv) == range);
    }
}

proof fn lemma_split_two(s: Seq<char>, sep: char)
    requires
        seq_contains_char(s, sep),
    ensures
        spec_split(s, sep).len() >= 2,
    decreases s.len(),
{
    assert(s.len() > 0);
    if s[0] == sep {
        crate::text::lemma_split_len(s.drop_first(), sep);
    } else {
        assert(seq_contains_char(s.drop_first(), sep)) by {
            let i = choose|i: int| 0 <= i < s.len() && s[i] == sep;
            assert(s.drop_first()[i - 1] == sep);
        }
        lemma_split_two(s.drop_first(), sep);
    }
}

/// Each item of each group expanded, in order.
pub open spec fn spec_expand_items(items: Seq<Seq<char>>) -> Seq<Seq<char>>
    decreases items.len(),
{
    if items.len() == 0 {
        Seq::empty()
    } else {
        spec_expand_items(items.drop_last()) + spec_expand_item(items.last())
    }
}

/// One brace group turned into its tokens: escaped commas restored,
/// split on commas, trimmed, ranges expanded.
pub open spec fn spec_group_tokens(item: Seq<char>) -> Seq<Seq<char>> {
    spec_expand_items(spec_split_trimmed(spec_replace_escaped_comma(item)))
}

/// A comma split with each part trimmed.
pub open spec fn spec_split_trimmed(s: Seq<char>) -> Seq<Seq<char>> {
    spec_split(s, ',').map_values(|p: Seq<char>| spec_trim(p))
}

fn group_tokens(item: &Vec<char>) -> (r: Vec<Vec<char>>)
    ensures
        views(r@) == spec_group_tokens(item@),
{
    let replaced = replace_escaped_comma(item);
    let parts = split(&replaced, ',');
    let ghost sp = spec_split(replaced@, ',');
    let mut trimmed: Vec<Vec<char>> = Vec::new();
    let mut i: usize = 0;
    while i < parts.len()
        invariant
            i <= parts@.len(),
            views(parts@) == sp,
            views(trimmed@) =~= sp.take(i as int).map_values(|p: Seq<char>| spec_trim(p)),
        decreases parts@.len() - i,
    {
        proof {
            assert(views(parts@)[i as int] == parts@[i as int]@);
        }
        trimmed.push(trim(&parts[i]));
        proof {
            assert(sp.take(i + 1).map_values(|p: Seq<char>| spec_trim(p)) =~= sp.take(
                i as int,
            ).map_values(|p: Seq<char>| spec_trim(p)).push(spec_trim(sp[i as int])));
        }
        i = i + 1;
    }
    proof {
        assert(sp.take(sp.len() as int) =~= sp);
    }
    let mut out: Vec<Vec<char>> = Vec::new();
    let ghost ts = views(trimmed@);
    let mut j: usize = 0;
    while j < trimmed.len()
        invariant
            j <= trimmed@.len(),
            views(trimmed@) == ts,
            views(out@) =~= spec_expand_items(ts.take(j as int)),
        decreases trimmed@.len() - j,
    {
        proof {
            assert(ts[j as int] == trimmed@[j as int]@);
            assert(ts.take(j + 1).drop_last() =~= ts.take(j as int));
            assert(ts.take(j + 1).last() == ts[j as int]);
        }
        let part = subrange_of(&trimmed[j], 0, trimmed[j].len());
        proof {
            assert(part@ =~= trimmed@[j as int]@);
        }
        expand_item(part, &mut out);
        j = j + 1;
    }
    proof {
        assert(ts.take(ts.len() as int) =~= ts);
    }
    out
}



// ---------------------------------------------------------------------------
// The cartesian product of the brace groups
// ---------------------------------------------------------------------------

/// The views of a sequence of token-group vectors.
pub open spec fn views2(v: Seq<Vec<Vec<char>>>) -> Seq<Seq<Seq<char>>> {
    v.map_values(|x: Vec<Vec<char>>| views(x@))
}

/// Every prefix combination extended with every token of one more
/// group, prefixes outermost.
pub open spec fn spec_combos_with(
    prefixes: Seq<Seq<Seq<char>>>,
    group: Seq<Seq<char>>,
) -> Seq<Seq<Seq<char>>>
    decreases prefixes.len(),
{
    if prefixes.len() == 0 {
        Seq::empty()
    } else {
        spec_combos_with(prefixes.drop_last(), group) + group.map_values(
            |x: Seq<char>| prefixes.last().push(x),
        )
    }
}

/// The cartesian product of the groups, in the order the daemon
/// generates it: earlier groups vary slowest, the last group fastest;
/// the product of no groups is one empty combination.
pub open spec fn spec_cartesian(vs: Seq<Seq<Seq<char>>>) -> Seq<Seq<Seq<char>>>
    decreases vs.len(),
{
    if vs.len() == 0 {
        seq![Seq::<Seq<char>>::empty()]
    } else {
        spec_combos_with(spec_cartesian(vs.drop_last()), vs.last())
    }
}

proof fn lemma_combos_with_shape(prefixes: Seq<Seq<Seq<char>>>, group: Seq<Seq<char>>, n: int)
    requires
        forall|i: int| 0 <= i < prefixes.len() ==> (#[trigger] prefixes[i]).len() == n,
    ensures
        forall|i: int|
            0 <= i < spec_combos_with(prefixes, group).len() ==> (#[trigger] spec_combos_with(
                prefixes,
                group,
            )[i]).len() == n + 1,
    decreases prefixes.len(),
{
    if prefixes.len() > 0 {
        assert(forall|i: int|
            0 <= i < prefixes.drop_last().len() ==> (#[trigger] prefixes.drop_last()[i]).len()
                == n);
        lemma_combos_with_shape(prefixes.drop_last(), group, n);
        let ext = group.map_values(|x: Seq<char>| prefixes.last().push(x));
        assert(forall|i: int| 0 <= i < ext.len() ==> (#[trigger] ext[i]).len() == n + 1);
        assert(forall|i: int|
            0 <= i < spec_combos_with(prefixes, group).len() ==> spec_combos_with(
                prefixes,
                group,
            )[i] == if i < spec_combos_with(prefixes.drop_last(), group).len() {
                spec_combos_with(prefixes.drop_last(), group)[i]
            } else {
                ext[i - spec_combos_with(prefixes.drop_last(), group).len()]
            });
    }
}

/// Every combination drawn from `vs` picks one token per group.
pub proof fn lemma_cartesian_shape(vs: Seq<Seq<Seq<char>>>)
    ensures
        forall|i: int|
            0 <= i < spec_cartesian(vs).len() ==> (#[trigger] spec_cartesian(vs)[i]).len()
                == vs.len(),
    decreases vs.len(),
{
    if vs.len() > 0 {
        lemma_cartesian_shape(vs.drop_last());
        lemma_combos_with_shape(spec_cartesian(vs.drop_last()), vs.last(), vs.len() - 1);
    }
}

/// Relies on itertools' `multi_cartesian_product`: the combinations in
/// order with the last group varying fastest, and one empty combination
/// for an empty group list.
#[verifier::external_body]
fn multi_cartesian(groups: &Vec<Vec<Vec<char>>>) -> (r: Vec<Vec<Vec<char>>>)
    ensures
        views2(r@) == spec_cartesian(views2(groups@)),
{
    groups.iter().map(|g| g.iter().cloned()).multi_cartesian_product().collect()
}

// ---------------------------------------------------------------------------
// Reassembling the expanded lines
// ---------------------------------------------------------------------------

/// The first `i` fixed parts and chosen tokens, interleaved.
pub open spec fn spec_weave_upto(rem: Seq<Seq<char>>, combo: Seq<Seq<char>>, i: int) -> Seq<char>
    decreases i,
{
    if i <= 0 {
        Seq::empty()
    } else {
        spec_weave_upto(rem, combo, i - 1) + rem[i - 1] + combo[i - 1]
    }
}

fn push_all(acc: &mut Vec<char>, v: &Vec<char>)
    ensures
        final(acc)@ == old(acc)@ + v@,
{
    let mut i: usize = 0;
    while i < v.len()
        invariant
            i <= v@.len(),
            acc@ =~= old(acc)@ + v@.take(i as int),
        decreases v@.len() - i,
    {
        acc.push(v[i]);
        i = i + 1;
    }
    proof {
        assert(v@.take(v@.len() as int) =~= v@);
    }
}

/// The expansion of one line: a line without a complete, well-nested
/// set of braces (or with any character outside ASCII) stands alone;
/// otherwise each brace group becomes its tokens, and one line is
/// produced per combination, fixed text interleaved with the chosen
/// tokens and the text after the last brace appended.
pub open spec fn spec_extract_curly_brace(line: Seq<char>) -> Seq<Seq<char>> {
    if !seq_contains_char(line, '{') || !seq_contains_char(line, '}') || !all_ascii(line)
        || !spec_braces_balanced(line) {
        seq![line]
    } else {
        let pos = spec_brace_positions_from(line, 0);
        let rem = spec_remaining_from(line, pos, 0);
        let groups = spec_items_from(line, pos).map_values(|it: Seq<char>| spec_group_tokens(it));
        let tail = line.skip(pos.last() + 1);
        spec_cartesian(groups).map_values(
            |c: Seq<Seq<char>>| spec_weave_upto(rem, c, rem.len() as int) + tail,
        )
    }
}


proof fn lemma_scan_even(s: Seq<char>, i: int, open: bool)
    requires
        0 <= i <= s.len(),
        spec_scan_braces(s, i, open) == Some(false),
    ensures
        (spec_brace_positions_from(s, i).len() + if open {
            1int
        } else {
            0int
        }) % 2 == 0,
    decreases s.len() - i,
{
    if i < s.len() {
        if s[i] == '{' {
            lemma_scan_even(s, i + 1, true);
        } else if s[i] == '}' {
            lemma_scan_even(s, i + 1, false);
        } else {
            lemma_scan_even(s, i + 1, open);
        }
    }
}

fn single_line(chars: &Vec<char>) -> (r: Vec<String>)
    ensures
        str_views(r@) == seq![chars@],
{
    let mut r: Vec<String> = Vec::new();
    r.push(string_from_chars(chars));
    proof {
        assert(str_views(r@) =~= seq![chars@]);
    }
    r
}

/// Expands the curly-brace groups of one configuration line into every
/// line they denote; a line without complete well-paired braces, or one
/// that is not all ASCII, comes back alone and unchanged.
pub fn extract_curly_brace(line: &str) -> (r: Vec<String>)
    ensures
        str_views(r@) == spec_extract_curly_brace(line@),
{
    let chars = chars_of(line);
    if !contains_char(&chars, '{') || !contains_char(&chars, '}') || !ascii_exec(&chars) {
        return single_line(&chars);
    }
    let (pos, balanced) = brace_scan(&chars);
    if !balanced {
        return single_line(&chars);
    }
    let ghost pos_i = pos@.map_values(|x: usize| x as int);
    proof {
        lemma_scan_even(chars@, 0, false);
        lemma_brace_positions_props(chars@, 0);
        assert(pos_i.len() % 2 == 0);
        assert(pos_i.len() >= 1) by {
            let w = choose|w: int| 0 <= w < chars@.len() && chars@[w] == '{';
            lemma_brace_position_found(chars@, 0, w);
        }
    }
    let npairs = pos.len() / 2;
    let mut groups: Vec<Vec<Vec<char>>> = Vec::new();
    let mut rem: Vec<Vec<char>> = Vec::new();
    let mut start: usize = 0;
    let mut k: usize = 0;
    let ghost mut idone = Seq::<Seq<char>>::empty();
    proof {
        assert(pos_i.skip(0) =~= pos_i);
        assert(idone.map_values(|it: Seq<char>| spec_group_tokens(it)) =~= views2(groups@));
    }
    while k < npairs
        invariant
            k <= npairs,
            npairs == pos@.len() / 2,
            pos_i.len() == pos@.len(),
            pos_i.len() % 2 == 0,
            pos_i.len() >= 1,
            pos_i == pos@.map_values(|x: usize| x as int),
            forall|t: int| 0 <= t < pos_i.len() ==> 0 <= #[trigger] pos_i[t] < chars@.len(),
            forall|t: int, u: int| 0 <= t < u < pos_i.len() ==> pos_i[t] < pos_i[u],
            k < npairs ==> (start as int == if k == 0 {
                0int
            } else {
                pos_i[2 * k - 1] + 1
            }),
            spec_items_from(chars@, pos_i) =~= idone + spec_items_from(
                chars@,
                pos_i.skip(2 * k as int),
            ),
            spec_remaining_from(chars@, pos_i, 0) =~= views(rem@) + spec_remaining_from(
                chars@,
                pos_i.skip(2 * k as int),
                start as int,
            ),
            views2(groups@) =~= idone.map_values(|it: Seq<char>| spec_group_tokens(it)),
            rem@.len() == k,
            groups@.len() == k,
        decreases npairs - k,
    {
        proof {
            assert(2 * npairs <= pos@.len());
        }
        let a = pos[2 * k];
        let b = pos[2 * k + 1];
        proof {
            assert(pos_i[2 * k as int] == pos@[2 * k as int] as int);
            assert(pos_i[2 * k + 1] == pos@[2 * k + 1] as int);
            assert(start <= a) by {
                if k > 0 {
                    assert(pos_i[2 * k - 1] < pos_i[2 * k as int]);
                }
            }
            assert(a < b) by {
                assert(pos_i[2 * k as int] < pos_i[2 * k + 1]);
            }
            assert(b < chars@.len());
        }
        let item = subrange_of(&chars, a + 1, b);
        let rem_k = subrange_of(&chars, start, a);
        let toks = group_tokens(&item);
        let ghost old_idone = idone;
        let ghost old_groups = views2(groups@);
        let ghost old_rem = views(rem@);
        groups.push(toks);
        rem.push(rem_k);
        proof {
            idone = old_idone.push(item@);
            assert(views2(groups@) =~= old_groups.push(spec_group_tokens(item@)));
            assert(idone.map_values(|it: Seq<char>| spec_group_tokens(it)) =~= old_idone.map_values(
                |it: Seq<char>| spec_group_tokens(it),
            ).push(spec_group_tokens(item@)));
            assert(views(rem@) =~= old_rem.push(rem_k@));
            let p = pos_i.skip(2 * k as int);
            assert(p.len() >= 2);
            assert(p[0] == pos_i[2 * k as int]);
            assert(p[1] == pos_i[2 * k + 1]);
            assert(p.skip(2) =~= pos_i.skip(2 * (k + 1) as int));
            assert(spec_items_from(chars@, p) == seq![chars@.subrange(p[0] + 1, p[1])]
                + spec_items_from(chars@, p.skip(2)));
            assert(item@ == chars@.subrange(p[0] + 1, p[1]));
            assert(idone + spec_items_from(chars@, pos_i.skip(2 * (k + 1) as int)) =~= old_idone + (
            seq![item@] + spec_items_from(chars@, pos_i.skip(2 * (k + 1) as int))));
            assert(spec_remaining_from(chars@, p, start as int) == seq![chars@.subrange(
                start as int,
                p[0],
            )] + spec_remaining_from(chars@, p.skip(2), p[1] + 1));
            assert(rem_k@ == chars@.subrange(start as int, p[0]));
            assert(views(rem@) + spec_remaining_from(
                chars@,
                pos_i.skip(2 * (k + 1) as int),
                p[1] + 1,
            ) =~= old_rem + (seq![rem_k@] + spec_remaining_from(
                chars@,
                pos_i.skip(2 * (k + 1) as int),
                p[1] + 1,
            )));
        }
        let cl = chars.len();
        proof {
            assert(b < cl);
        }
        start = b + 1;
        k = k + 1;
    }
    proof {
        assert(pos_i.skip(2 * npairs as int) =~= Seq::<int>::empty());
        assert(spec_items_from(chars@, Seq::<int>::empty()) =~= Seq::<Seq<char>>::empty());
        assert(spec_remaining_from(chars@, Seq::<int>::empty(), start as int)
            =~= Seq::<Seq<char>>::empty());
        assert(idone =~= spec_items_from(chars@, pos_i));
        assert(views(rem@) =~= spec_remaining_from(chars@, pos_i, 0));
        assert(views2(groups@) =~= spec_items_from(chars@, pos_i).map_values(
            |it: Seq<char>| spec_group_tokens(it),
        ));
    }
    let combos = multi_cartesian(&groups);
    proof {
        lemma_cartesian_shape(views2(groups@));
    }
    let last_pos = pos[pos.len() - 1];
    let cl = chars.len();
    proof {
        assert(pos_i[pos_i.len() - 1] == pos@[pos@.len() - 1] as int);
        assert(pos_i.last() < chars@.len());
        assert(last_pos < cl);
    }
    let tail = subrange_of(&chars, last_pos + 1, cl);
    proof {
        assert(tail@ =~= chars@.skip(pos_i.last() + 1));
    }
    let ghost combos_v = views2(combos@);
    let ghost rem_v = views(rem@);
    let ghost tail_v = tail@;
    let mut out: Vec<String> = Vec::new();
    let mut ci: usize = 0;
    while ci < combos.len()
        invariant
            ci <= combos@.len(),
            combos_v == views2(combos@),
            rem_v == views(rem@),
            tail_v == tail@,
            rem@.len() == npairs,
            forall|t: int| 0 <= t < combos_v.len() ==> (#[trigger] combos_v[t]).len() == npairs,
            str_views(out@) =~= combos_v.take(ci as int).map_values(
                |c: Seq<Seq<char>>| spec_weave_upto(rem_v, c, rem_v.len() as int) + tail_v,
            ),
        decreases combos@.len() - ci,
    {
        proof {
            assert(combos_v[ci as int] == views(combos@[ci as int]@));
        }
        let mut acc: Vec<char> = Vec::new();
        let mut i: usize = 0;
        while i < npairs
            invariant
                i <= npairs,
                rem_v == views(rem@),
                rem@.len() == npairs,
                ci < combos@.len(),
                combos_v == views2(combos@),
                combos_v[ci as int].len() == npairs,
                combos_v[ci as int] == views(combos@[ci as int]@),
                acc@ =~= spec_weave_upto(rem_v, combos_v[ci as int], i as int),
            decreases npairs - i,
        {
            proof {
                assert(rem_v[i as int] == rem@[i as int]@);
                assert(views(combos@[ci as int]@)[i as int] == combos@[ci as int]@[i as int]@);
            }
            push_all(&mut acc, &rem[i]);
            push_all(&mut acc, &combos[ci][i]);
            i = i + 1;
        }
        push_all(&mut acc, &tail);
        let ghost old_out = str_views(out@);
        out.push(string_from_chars(&acc));
        proof {
            assert(str_views(out@) =~= old_out.push(acc@));
            assert(acc@ =~= spec_weave_upto(rem_v, combos_v[ci as int], rem_v.len() as int)
                + tail_v);
            assert(combos_v.take(ci + 1).map_values(
                |c: Seq<Seq<char>>| spec_weave_upto(rem_v, c, rem_v.len() as int) + tail_v,
            ) =~= combos_v.take(ci as int).map_values(
                |c: Seq<Seq<char>>| spec_weave_upto(rem_v, c, rem_v.len() as int) + tail_v,
            ).push(spec_weave_upto(rem_v, combos_v[ci as int], rem_v.len() as int) + tail_v));
        }
        ci = ci + 1;
    }
    proof {
        assert(combos_v.take(combos_v.len() as int) =~= combos_v);
        lemma_cartesian_shape(views2(groups@));
        assert(str_views(out@) =~= spec_extract_curly_brace(line@));
    }
    out
}

proof fn lemma_brace_position_found(s: Seq<char>, i: int, w: int)
    requires
        0 <= i <= w < s.len(),
        s[w] == '{' || s[w] == '}',
    ensures
        spec_brace_positions_from(s, i).len() >= 1,
    decreases w - i,
{
    if i < w {
        lemma_brace_position_found(s, i + 1, w);
    }
}


// ---------------------------------------------------------------------------
// Parsing one keybind line
// ---------------------------------------------------------------------------

use crate::config::Error;
use crate::config::KeyBinding;
use crate::config::KeyBindingView;
use crate::config::ParseError;
use crate::config::spec_dedup;
use crate::config::dedup_mods;
use crate::keys::Modifier;
use crate::keys::key_code_of;
use crate::keys::mod_of_name;
use crate::keys::spec_key_code;
use crate::keys::spec_mod_of_name;
use crate::text::lower;
use vstd::string::StringExecFns;
use crate::text::spec_lower;
use crate::text::take_until;

/// One token of a keybind line, lowercased and trimmed.
pub open spec fn spec_token0(seg: Seq<char>) -> Seq<char> {
    spec_lower(spec_trim(seg))
}

/// Leading whitespace and underscores removed.
pub open spec fn spec_skip_ws_us(s: Seq<char>) -> Seq<char>
    decreases s.len(),
{
    if s.len() > 0 && (is_ws(s[0]) || s[0] == '_') {
        spec_skip_ws_us(s.drop_first())
    } else {
        s
    }
}

/// A token with its leading underscores (and the whitespace around
/// them) stripped, then trimmed.
pub open spec fn spec_strip_token(t: Seq<char>) -> Seq<char> {
    spec_trim(spec_skip_ws_us(t))
}

proof fn lemma_skip_ws_us_skip(s: Seq<char>, i: int)
    requires
        0 <= i <= s.len(),
        forall|j: int| 0 <= j < i ==> (is_ws(s[j]) || s[j] == '_'),
    ensures
        spec_skip_ws_us(s) == spec_skip_ws_us(s.skip(i)),
    decreases i,
{
    if i > 0 {
        assert(s.drop_first() =~= s.skip(1));
        assert(s.skip(1).skip(i - 1) =~= s.skip(i));
        lemma_skip_ws_us_skip(s.skip(1), i - 1);
    } else {
        assert(s.skip(0) =~= s);
    }
}

fn strip_token(t: &Vec<char>) -> (r: Vec<char>)
    ensures
        r@ == spec_strip_token(t@),
{
    let mut a: usize = 0;
    while a < t.len() && (crate::text::ws(t[a]) || t[a] == '_')
        invariant
            a <= t@.len(),
            forall|j: int| 0 <= j < a ==> (is_ws(t@[j]) || t@[j] == '_'),
        decreases t@.len() - a,
    {
        a = a + 1;
    }
    proof {
        lemma_skip_ws_us_skip(t@, a as int);
        if a < t@.len() {
            assert(spec_skip_ws_us(t@.skip(a as int)) =~= t@.skip(a as int));
        } else {
            assert(t@.skip(a as int) =~= Seq::<char>::empty());
            assert(spec_skip_ws_us(Seq::<char>::empty()) =~= Seq::<char>::empty());
        }
    }
    let rest = subrange_of(t, a, t.len());
    proof {
        assert(rest@ =~= t@.skip(a as int));
    }
    trim(&rest)
}

/// The cleaned tokens of a sequence of `+`-separated segments: each
/// lowercased and trimmed, plain `_` placeholders dropped, leading
/// underscores stripped.
pub open spec fn spec_clean_tokens(segs: Seq<Seq<char>>) -> Seq<Seq<char>>
    decreases segs.len(),
{
    if segs.len() == 0 {
        Seq::empty()
    } else {
        let rest = spec_clean_tokens(segs.drop_last());
        let t = spec_token0(segs.last());
        if t == "_"@ {
            rest
        } else {
            rest.push(spec_strip_token(t))
        }
    }
}

/// The tokens of a keybind line: an inline comment cut off at the first
/// `#`, then the `+`-separated parts, cleaned.
pub open spec fn spec_tokens(line: Seq<char>) -> Seq<Seq<char>> {
    spec_clean_tokens(spec_split(spec_take_until(line, '#'), '+'))
}

fn tokens_of_line(line: &Vec<char>) -> (r: Vec<Vec<char>>)
    ensures
        views(r@) == spec_tokens(line@),
{
    let cut = take_until(line, '#');
    let segs = split(&cut, '+');
    let ghost sv = spec_split(cut@, '+');
    let underscore = chars_of("_");
    let mut toks: Vec<Vec<char>> = Vec::new();
    let mut i: usize = 0;
    while i < segs.len()
        invariant
            i <= segs@.len(),
            views(segs@) == sv,
            underscore@ == "_"@,
            views(toks@) =~= spec_clean_tokens(sv.take(i as int)),
        decreases segs@.len() - i,
    {
        proof {
            assert(views(segs@)[i as int] == segs@[i as int]@);
            assert(sv.take(i + 1).drop_last() =~= sv.take(i as int));
            assert(sv.take(i + 1).last() == sv[i as int]);
        }
        let t0 = trim(&segs[i]);
        let t = lower(&t0);
        if !crate::text::text_eq(&t, &underscore) {
            let ghost old_toks = views(toks@);
            toks.push(strip_token(&t));
            proof {
                assert(views(toks@) =~= old_toks.push(spec_strip_token(t@)));
            }
        }
        i = i + 1;
    }
    proof {
        assert(sv.take(sv.len() as int) =~= sv);
    }
    toks
}

/// Leading `@` and `~` prefix marks removed.
pub open spec fn spec_strip_prefix_marks(t: Seq<char>) -> Seq<char>
    decreases t.len(),
{
    if t.len() > 0 && (t[0] == '@' || t[0] == '~') {
        spec_strip_prefix_marks(t.drop_first())
    } else {
        t
    }
}

proof fn lemma_strip_marks_skip(s: Seq<char>, i: int)
    requires
        0 <= i <= s.len(),
        forall|j: int| 0 <= j < i ==> (s[j] == '@' || s[j] == '~'),
    ensures
        spec_strip_prefix_marks(s) == spec_strip_prefix_marks(s.skip(i)),
    decreases i,
{
    if i > 0 {
        assert(s.drop_first() =~= s.skip(1));
        assert(s.skip(1).skip(i - 1) =~= s.skip(i));
        lemma_strip_marks_skip(s.skip(1), i - 1);
    } else {
        assert(s.skip(0) =~= s);
    }
}

fn strip_prefix_marks(t: &Vec<char>) -> (r: Vec<char>)
    ensures
        r@ == spec_strip_prefix_marks(t@),
{
    let mut a: usize = 0;
    while a < t.len() && (t[a] == '@' || t[a] == '~')
        invariant
            a <= t@.len(),
            forall|j: int| 0 <= j < a ==> (t@[j] == '@' || t@[j] == '~'),
        decreases t@.len() - a,
    {
        a = a + 1;
    }
    proof {
        lemma_strip_marks_skip(t@, a as int);
        if a < t@.len() {
            assert(spec_strip_prefix_marks(t@.skip(a as int)) =~= t@.skip(a as int));
        } else {
            assert(t@.skip(a as int) =~= Seq::<char>::empty());
            assert(spec_strip_prefix_marks(Seq::<char>::empty()) =~= Seq::<char>::empty());
        }
    }
    let r = subrange_of(t, a, t.len());
    proof {
        assert(r@ =~= t@.skip(a as int));
    }
    r
}

/// Whether the last token's prefixes ask for the event to be passed on:
/// a leading `~`, or `@~`.
pub open spec fn spec_send_flag(lt: Seq<char>) -> bool {
    lt.len() > 0 && (lt[0] == '~' || (lt.len() > 1 && lt[0] == '@' && lt[1] == '~'))
}

/// Whether the last token's prefixes defer dispatch to release: a
/// leading `@`, or `~@`.
pub open spec fn spec_release_flag(lt: Seq<char>) -> bool {
    lt.len() > 0 && (lt[0] == '@' || (lt.len() > 1 && lt[0] == '~' && lt[1] == '@'))
}

/// How a keybind line can be rejected.
pub enum ParseErrorKind {
    UnknownSymbol,
    InvalidModifier,
    InvalidKeysym,
}

/// The first offence among the tokens, scanning left to right: a key
/// name anywhere but last is an invalid modifier, a modifier name last
/// is an invalid keysym, and an unrecognized name is an unknown symbol.
pub open spec fn spec_kb_scan(toks: Seq<Seq<char>>, i: int) -> Option<ParseErrorKind>
    decreases toks.len() - i,
{
    if i < 0 || i >= toks.len() {
        None
    } else {
        let t = spec_strip_prefix_marks(toks[i]);
        if spec_key_code(t) is Some {
            if i != toks.len() - 1 {
                Some(ParseErrorKind::InvalidModifier)
            } else {
                spec_kb_scan(toks, i + 1)
            }
        } else if spec_mod_of_name(t) is Some {
            if i == toks.len() - 1 {
                Some(ParseErrorKind::InvalidKeysym)
            } else {
                spec_kb_scan(toks, i + 1)
            }
        } else {
            Some(ParseErrorKind::UnknownSymbol)
        }
    }
}

proof fn lemma_kb_scan_skip(toks: Seq<Seq<char>>, i: int)
    requires
        0 <= i <= toks.len(),
        forall|j: int|
            0 <= j < i ==> {
                let t = spec_strip_prefix_marks(#[trigger] toks[j]);
                if spec_key_code(t) is Some {
                    j == toks.len() - 1
                } else {
                    spec_mod_of_name(t) is Some && j != toks.len() - 1
                }
            },
    ensures
        spec_kb_scan(toks, 0) == spec_kb_scan(toks, i),
    decreases i,
{
    if i > 0 {
        reveal_with_fuel(spec_kb_scan, 3);
        lemma_kb_scan_skip(toks, i - 1);
        let t = spec_strip_prefix_marks(toks[i - 1]);
        assert((spec_key_code(t) is Some && i - 1 == toks.len() - 1) || (spec_mod_of_name(t)
            is Some && i - 1 != toks.len() - 1));
        if spec_key_code(t) is Some {
            assert(i - 1 == toks.len() - 1);
            assert(spec_kb_scan(toks, i - 1) == spec_kb_scan(toks, i));
        } else {
            assert(spec_kb_scan(toks, i - 1) == spec_kb_scan(toks, i));
        }
    }
}

/// The modifiers named by all tokens but the last, in order.
pub open spec fn spec_raw_mods(toks: Seq<Seq<char>>) -> Seq<Modifier> {
    Seq::new(
        (toks.len() - 1) as nat,
        |i: int| spec_mod_of_name(spec_strip_prefix_marks(toks[i]))->Some_0,
    )
}

/// What a keybind line denotes: the binding, or the kind of parse error.
pub open spec fn spec_parse_keybind(line: Seq<char>) -> Result<KeyBindingView, ParseErrorKind> {
    let toks = spec_tokens(line);
    if toks.len() == 0 {
        Err(ParseErrorKind::UnknownSymbol)
    } else {
        match spec_kb_scan(toks, 0) {
            Some(k) => Err(k),
            None => Ok(
                KeyBindingView {
                    keysym: spec_key_code(spec_strip_prefix_marks(toks.last()))->Some_0,
                    modifiers: spec_dedup(spec_raw_mods(toks)),
                    send: spec_send_flag(toks.last()),
                    on_release: spec_release_flag(toks.last()),
                },
            ),
        }
    }
}

/// Whether `e` is the configured-file error of the given kind, for the
/// given path and one-based line number.
pub open spec fn spec_err_matches(e: Error, k: ParseErrorKind, path: Seq<char>, line_nr: u32) -> bool {
    match (e, k) {
        (Error::InvalidConfig(ParseError::UnknownSymbol(p, l)), ParseErrorKind::UnknownSymbol) => p@
            == path && l == line_nr,
        (
            Error::InvalidConfig(ParseError::InvalidModifier(p, l)),
            ParseErrorKind::InvalidModifier,
        ) => p@ == path && l == line_nr,
        (Error::InvalidConfig(ParseError::InvalidKeysym(p, l)), ParseErrorKind::InvalidKeysym) => p@
            == path && l == line_nr,
        _ => false,
    }
}

fn kb_error(path: &str, line_nr: u32, k: &ParseErrorKind) -> (r: Error)
    ensures
        spec_err_matches(r, *k, path@, line_nr),
{
    let p = String::from_str(path);
    match k {
        ParseErrorKind::UnknownSymbol => Error::InvalidConfig(ParseError::UnknownSymbol(p, line_nr)),
        ParseErrorKind::InvalidModifier => Error::InvalidConfig(
            ParseError::InvalidModifier(p, line_nr),
        ),
        ParseErrorKind::InvalidKeysym => Error::InvalidConfig(ParseError::InvalidKeysym(p, line_nr)),
    }
}

/// Parses one keybind line into a binding; the error names the file and
/// the one-based line at which the line was rejected.
fn parse_keybind(path: &str, line: &Vec<char>, line_nr: u32) -> (r: Result<KeyBinding, Error>)
    ensures
        match spec_parse_keybind(line@) {
            Ok(v) => r is Ok && r->Ok_0@ == v,
            Err(k) => r is Err && spec_err_matches(r->Err_0, k, path@, line_nr),
        },
{
    let toks = tokens_of_line(line);
    let ghost tv = spec_tokens(line@);
    let n = toks.len();
    if n == 0 {
        return Err(kb_error(path, line_nr, &ParseErrorKind::UnknownSymbol));
    }
    let mut mods: Vec<Modifier> = Vec::new();
    let mut i: usize = 0;
    while i < n - 1
        invariant
            n == toks@.len(),
            n >= 1,
            views(toks@) == tv,
            tv == spec_tokens(line@),
            i <= n - 1,
            forall|j: int|
                0 <= j < i ==> {
                    let t = spec_strip_prefix_marks(#[trigger] tv[j]);
                    spec_key_code(t) is None && spec_mod_of_name(t) is Some && j != tv.len() - 1
                },
            mods@ =~= spec_raw_mods(tv).take(i as int),
        decreases n - 1 - i,
    {
        proof {
            assert(views(toks@)[i as int] == toks@[i as int]@);
        }
        let t = strip_prefix_marks(&toks[i]);
        if key_code_of(&t).is_some() {
            proof {
                lemma_kb_scan_skip(tv, i as int);
                assert(spec_kb_scan(tv, i as int) == Some(ParseErrorKind::InvalidModifier));
                assert(tv == spec_tokens(line@));
                assert(tv.len() == n);
                assert(spec_kb_scan(spec_tokens(line@), 0) == Some(
                    ParseErrorKind::InvalidModifier,
                ));
                assert(spec_parse_keybind(line@) == Err::<KeyBindingView, ParseErrorKind>(
                    ParseErrorKind::InvalidModifier,
                ));
            }
            return Err(kb_error(path, line_nr, &ParseErrorKind::InvalidModifier));
        }
        match mod_of_name(&t) {
            Some(m) => {
                mods.push(m);
                proof {
                    assert(spec_raw_mods(tv).take(i + 1) =~= spec_raw_mods(tv).take(
                        i as int,
                    ).push(spec_raw_mods(tv)[i as int]));
                }
            },
            None => {
                proof {
                    lemma_kb_scan_skip(tv, i as int);
                    assert(spec_kb_scan(tv, i as int) == Some(ParseErrorKind::UnknownSymbol));
                    assert(tv == spec_tokens(line@));
                    assert(tv.len() == n);
                    assert(spec_kb_scan(spec_tokens(line@), 0) == Some(
                        ParseErrorKind::UnknownSymbol,
                    ));
                    assert(spec_parse_keybind(line@) == Err::<KeyBindingView, ParseErrorKind>(
                        ParseErrorKind::UnknownSymbol,
                    ));
                }
                return Err(kb_error(path, line_nr, &ParseErrorKind::UnknownSymbol));
            },
        }
        i = i + 1;
    }
    proof {
        lemma_kb_scan_skip(tv, n - 1 as int);
        assert(views(toks@)[n - 1] == toks@[n - 1]@);
    }
    let lt_raw = &toks[n - 1];
    let lt = strip_prefix_marks(lt_raw);
    match key_code_of(&lt) {
        Some(ks) => {
            let send = (lt_raw.len() > 0 && lt_raw[0] == '~') || (lt_raw.len() > 1 && lt_raw[0]
                == '@' && lt_raw[1] == '~');
            let on_release = (lt_raw.len() > 0 && lt_raw[0] == '@') || (lt_raw.len() > 1
                && lt_raw[0] == '~' && lt_raw[1] == '@');
            proof {
                assert(spec_kb_scan(tv, n - 1 as int) == spec_kb_scan(tv, n as int));
                assert(spec_raw_mods(tv).take(n - 1 as int) =~= spec_raw_mods(tv));
            }
            let kb = KeyBinding {
                keysym: ks,
                modifiers: dedup_mods(mods),
                send,
                on_release,
            };
            proof {
                assert(kb@ =~= spec_parse_keybind(line@)->Ok_0);
            }
            Ok(kb)
        },
        None => {
            match mod_of_name(&lt) {
                Some(_) => Err(kb_error(path, line_nr, &ParseErrorKind::InvalidKeysym)),
                None => Err(kb_error(path, line_nr, &ParseErrorKind::UnknownSymbol)),
            }
        },
    }
}


// ---------------------------------------------------------------------------
// Parsing a whole configuration text
// ---------------------------------------------------------------------------

use crate::config::Hotkey;
use crate::config::HotkeyView;
use crate::config::Mode;
use crate::config::ModeOptions;
use crate::config::ModeView;
use crate::config::kbv_eq;

/// A line the parser ignores: a comment, an `include` line, or blank.
pub open spec fn spec_line_skipped(line: Seq<char>) -> bool {
    let t = spec_trim(line);
    (t.len() > 0 && t[0] == '#') || spec_take_until(line, ' ') == "include"@ || t.len() == 0
}

/// Whether a kept line is a command line: it starts with indentation.
pub open spec fn spec_line_is_command(line: Seq<char>) -> bool {
    line.len() > 0 && (line[0] == ' ' || line[0] == '\t')
}

/// The kept lines from index `i` on, each marked as command or keysym
/// and paired with its zero-based line number.
pub open spec fn spec_marked(lines: Seq<Seq<char>>, i: int) -> Seq<(bool, int)>
    decreases lines.len() - i,
{
    if i < 0 || i >= lines.len() {
        Seq::empty()
    } else if spec_line_skipped(lines[i]) {
        spec_marked(lines, i + 1)
    } else {
        seq![(spec_line_is_command(lines[i]), i)] + spec_marked(lines, i + 1)
    }
}

/// The state of backslash-joining: the type and number of the line
/// being assembled, the text assembled so far, and the finished lines.
#[verifier::ext_equal]
pub struct JoinState {
    pub ty: bool,
    pub ln: int,
    pub cur: Seq<char>,
    pub out: Seq<(bool, int, Seq<char>)>,
}

/// One marked line folded into the joining state: a change of type
/// restarts the assembly; the line's trimmed text is appended, less a
/// trailing backslash, which keeps the assembly open.
pub open spec fn spec_join_step(lines: Seq<Seq<char>>, st: JoinState, m: (bool, int)) -> JoinState {
    let st1 = if m.0 != st.ty {
        JoinState { ty: m.0, ln: m.1, cur: Seq::empty(), out: st.out }
    } else {
        st
    };
    let add0 = spec_trim(lines[m.1]);
    let cont = add0.len() > 0 && add0.last() == '\\';
    let add = if cont {
        add0.drop_last()
    } else {
        add0
    };
    let st2 = JoinState { cur: st1.cur + add, ..st1 };
    if cont {
        st2
    } else {
        JoinState {
            ty: m.0,
            ln: m.1,
            cur: Seq::empty(),
            out: st2.out.push((st2.ty, st2.ln, st2.cur)),
        }
    }
}

/// The joining state after the first `k` marked lines.
pub open spec fn spec_join_state(lines: Seq<Seq<char>>, marked: Seq<(bool, int)>, k: int) -> JoinState
    decreases k,
{
    if k <= 0 {
        JoinState { ty: marked[0].0, ln: marked[0].1, cur: Seq::empty(), out: Seq::empty() }
    } else {
        spec_join_step(lines, spec_join_state(lines, marked, k - 1), marked[k - 1])
    }
}

/// The lines the hotkey scan works on: when the text holds a backslash,
/// the marked lines joined; otherwise each marked line, trimmed.
pub open spec fn spec_actual_lines(contents: Seq<char>) -> Seq<(bool, int, Seq<char>)> {
    let lines = spec_split(contents, '\n');
    let marked = spec_marked(lines, 0);
    if seq_contains_char(contents, '\\') {
        spec_join_state(lines, marked, marked.len() as int).out
    } else {
        marked.map_values(|m: (bool, int)| (m.0, m.1, spec_trim(lines[m.1])))
    }
}

/// Hotkeys with an equal binding removed; equality on bindings is
/// set-based on the modifiers and exact elsewhere.
pub open spec fn spec_remove_binding(hks: Seq<HotkeyView>, b: KeyBindingView) -> Seq<HotkeyView>
    decreases hks.len(),
{
    if hks.len() == 0 {
        hks
    } else {
        let p = spec_remove_binding(hks.drop_last(), b);
        if kbv_eq(hks.last().binding, b) {
            p
        } else {
            p.push(hks.last())
        }
    }
}

/// A parsed hotkey added: a later definition replaces an earlier one
/// with an equal binding.
pub open spec fn spec_add_hotkey(hks: Seq<HotkeyView>, b: KeyBindingView, cmd: Seq<char>) -> Seq<
    HotkeyView,
> {
    spec_remove_binding(hks, b).push(
        HotkeyView { binding: b, command: cmd, instrs: Seq::empty() },
    )
}

/// The first `j` key/command pairs of one expanded line folded in; a
/// bad key gives the error with the line's one-based number.
pub open spec fn spec_zip_parse(
    hks: Seq<HotkeyView>,
    keys: Seq<Seq<char>>,
    cmds: Seq<Seq<char>>,
    ln: int,
    j: int,
) -> Result<Seq<HotkeyView>, (ParseErrorKind, int)>
    decreases j,
{
    if j <= 0 {
        Ok(hks)
    } else {
        match spec_zip_parse(hks, keys, cmds, ln, j - 1) {
            Err(e) => Err(e),
            Ok(h) => match spec_parse_keybind(keys[j - 1]) {
                Err(k) => Err((k, ln)),
                Ok(v) => Ok(spec_add_hotkey(h, v, cmds[j - 1])),
            },
        }
    }
}

pub open spec fn spec_min(a: int, b: int) -> int {
    if a <= b {
        a
    } else {
        b
    }
}

/// The hotkeys collected from the first `k` actual lines: each keysym
/// line followed by a command line contributes its expanded pairs.
pub open spec fn spec_collect_upto(actual: Seq<(bool, int, Seq<char>)>, k: int) -> Result<
    Seq<HotkeyView>,
    (ParseErrorKind, int),
>
    decreases k,
{
    if k <= 0 {
        Ok(Seq::empty())
    } else {
        match spec_collect_upto(actual, k - 1) {
            Err(e) => Err(e),
            Ok(hks) => {
                let i = k - 1;
                let it = actual[i];
                if it.0 || i + 1 >= actual.len() || !actual[i + 1].0 {
                    Ok(hks)
                } else {
                    let keys = spec_extract_curly_brace(it.2);
                    let cmds = spec_extract_curly_brace(actual[i + 1].2);
                    spec_zip_parse(hks, keys, cmds, it.1 + 1, spec_min(keys.len() as int, cmds.len() as int))
                }
            },
        }
    }
}

/// What a configuration text denotes: the default mode's hotkeys, or
/// the first parse error with its one-based line number.
pub open spec fn spec_parse_contents(contents: Seq<char>) -> Result<
    Seq<HotkeyView>,
    (ParseErrorKind, int),
> {
    let actual = spec_actual_lines(contents);
    spec_collect_upto(actual, actual.len() as int)
}

proof fn lemma_split_count(s: Seq<char>, sep: char)
    ensures
        spec_split(s, sep).len() <= s.len() + 1,
    decreases s.len(),
{
    if s.len() > 0 {
        lemma_split_count(s.drop_first(), sep);
    }
}

proof fn lemma_marked_bounds(lines: Seq<Seq<char>>, i: int)
    requires
        0 <= i,
    ensures
        forall|k: int|
            0 <= k < spec_marked(lines, i).len() ==> i <= (#[trigger] spec_marked(lines, i)[k]).1
                < lines.len(),
    decreases lines.len() - i,
{
    if i < lines.len() {
        lemma_marked_bounds(lines, i + 1);
        let rest = spec_marked(lines, i + 1);
        if !spec_line_skipped(lines[i]) {
            assert(forall|k: int|
                1 <= k < spec_marked(lines, i).len() ==> spec_marked(lines, i)[k] == rest[k - 1]);
        }
    }
}



fn add_hotkey(hotkeys: Vec<Hotkey>, kb: KeyBinding, cmd: String) -> (r: Vec<Hotkey>)
    ensures
        r@.map_values(|h: Hotkey| h@) == spec_add_hotkey(
            hotkeys@.map_values(|h: Hotkey| h@),
            kb@,
            cmd@,
        ),
{
    let ghost old_h = hotkeys@.map_values(|h: Hotkey| h@);
    let mut kept: Vec<Hotkey> = Vec::new();
    let mut t: usize = 0;
    while t < hotkeys.len()
        invariant
            t <= hotkeys@.len(),
            old_h == hotkeys@.map_values(|h: Hotkey| h@),
            kept@.map_values(|h: Hotkey| h@) =~= spec_remove_binding(old_h.take(t as int), kb@),
        decreases hotkeys@.len() - t,
    {
        proof {
            assert(old_h[t as int] == hotkeys@[t as int]@);
            assert(old_h.take(t + 1).drop_last() =~= old_h.take(t as int));
            assert(old_h.take(t + 1).last() == old_h[t as int]);
        }
        let keep = !(hotkeys[t].keybinding == kb);
        if keep {
            let ghost old_kept = kept@.map_values(|h: Hotkey| h@);
            let hclone = hotkeys[t].clone();
            kept.push(hclone);
            proof {
                assert(kept@.map_values(|h: Hotkey| h@) =~= old_kept.push(hotkeys@[t as int]@));
            }
        }
        t = t + 1;
    }
    proof {
        assert(old_h.take(old_h.len() as int) =~= old_h);
    }
    let ghost removed = kept@.map_values(|h: Hotkey| h@);
    let hk = Hotkey { keybinding: kb, command: cmd, mode_instructions: Vec::new() };
    proof {
        assert(hk@.instrs =~= Seq::<Option<Seq<char>>>::empty());
        assert(hk@ == (HotkeyView { binding: kb@, command: cmd@, instrs: Seq::empty() }));
    }
    let mut kept = kept;
    kept.push(hk);
    proof {
        assert(kept@.map_values(|h: Hotkey| h@) =~= removed.push(
            HotkeyView { binding: kb@, command: cmd@, instrs: Seq::empty() },
        ));
    }
    kept
}


proof fn lemma_join_bounds(lines: Seq<Seq<char>>, marked: Seq<(bool, int)>, k: int)
    requires
        marked.len() >= 1,
        0 <= k <= marked.len(),
        forall|t: int| 0 <= t < marked.len() ==> 0 <= (#[trigger] marked[t]).1 < lines.len(),
    ensures
        0 <= spec_join_state(lines, marked, k).ln < lines.len(),
        forall|t: int|
            0 <= t < spec_join_state(lines, marked, k).out.len() ==> 0 <= (
            #[trigger] spec_join_state(lines, marked, k).out[t]).1 < lines.len(),
    decreases k,
{
    if k <= 0 {
        assert(marked[0].1 < lines.len());
    } else {
        lemma_join_bounds(lines, marked, k - 1);
        let st = spec_join_state(lines, marked, k - 1);
        let nxt = spec_join_state(lines, marked, k);
        assert(marked[k - 1].1 < lines.len());
        assert(forall|t: int|
            0 <= t < nxt.out.len() ==> nxt.out[t] == if t < st.out.len() {
                st.out[t]
            } else {
                nxt.out[st.out.len() as int]
            });
    }
}

fn line_skipped(line: &Vec<char>) -> (r: bool)
    ensures
        r == spec_line_skipped(line@),
{
    let t = trim(line);
    if t.len() > 0 && t[0] == '#' {
        return true;
    }
    let first_word = take_until(line, ' ');
    let include_word = chars_of("include");
    if crate::text::text_eq(&first_word, &include_word) {
        return true;
    }
    t.len() == 0
}

/// Parses a configuration text into its modes. The default mode, named
/// "normal", holds every hotkey of the text, later definitions
/// replacing earlier ones with an equal binding. This grammar defines
/// no syntax for further modes, mode instructions or unbinds: those
/// reach the engine as `Mode` and `Hotkey` values built by the caller.
/// An error names `path` and the one-based line at which the first
/// offence stands.
#[verifier::rlimit(100)]
pub fn parse_contents(path: String, contents: String) -> (r: Result<Vec<Mode>, Error>)
    requires
        contents@.len() + 2 <= u32::MAX,
    ensures
        match spec_parse_contents(contents@) {
            Ok(hkvs) => r is Ok && r->Ok_0@.len() == 1 && (r->Ok_0@[0]@ == ModeView {
                name: "normal"@,
                hotkeys: hkvs,
                unbinds: Seq::empty(),
                swallow: false,
                oneoff: false,
            }),
            Err(e) => r is Err && spec_err_matches(r->Err_0, e.0, path@, e.1 as u32),
        },
{
    let cc = chars_of(contents.as_str());
    let lines = split(&cc, '\n');
    let ghost lv = spec_split(cc@, '\n');
    proof {
        lemma_split_count(cc@, '\n');
        lemma_marked_bounds(lv, 0);
    }
    // classify the lines
    let mut marked: Vec<(bool, usize)> = Vec::new();
    let mut i: usize = 0;
    proof {
        assert(spec_marked(lv, 0) =~= marked@.map_values(|m: (bool, usize)| (m.0, m.1 as int))
            + spec_marked(lv, 0));
    }
    while i < lines.len()
        invariant
            i <= lines@.len(),
            views(lines@) == lv,
            spec_marked(lv, 0) =~= marked@.map_values(|m: (bool, usize)| (m.0, m.1 as int))
                + spec_marked(lv, i as int),
        decreases lines@.len() - i,
    {
        proof {
            assert(views(lines@)[i as int] == lines@[i as int]@);
        }
        if !line_skipped(&lines[i]) {
            let is_cmd = starts_with_char(&lines[i], ' ') || starts_with_char(&lines[i], '\t');
            let ghost old_m = marked@;
            marked.push((is_cmd, i));
            proof {
                assert(marked@.map_values(|m: (bool, usize)| (m.0, m.1 as int)) =~= old_m.map_values(
                    |m: (bool, usize)| (m.0, m.1 as int),
                ).push((is_cmd, i as int)));
                assert(old_m.map_values(|m: (bool, usize)| (m.0, m.1 as int)).push((
                    is_cmd,
                    i as int,
                )) + spec_marked(lv, i + 1) =~= old_m.map_values(
                    |m: (bool, usize)| (m.0, m.1 as int),
                ) + (seq![(spec_line_is_command(lv[i as int]), i as int)] + spec_marked(
                    lv,
                    i + 1,
                )));
            }
        }
        i = i + 1;
    }
    proof {
        assert(spec_marked(lv, lv.len() as int) =~= Seq::<(bool, int)>::empty());
        assert(marked@.map_values(|m: (bool, usize)| (m.0, m.1 as int))
            + Seq::<(bool, int)>::empty() =~= marked@.map_values(
            |m: (bool, usize)| (m.0, m.1 as int),
        ));
    }
    let ghost mv = spec_marked(lv, 0);
    // assemble the actual lines
    let mut actual: Vec<(bool, usize, Vec<char>)> = Vec::new();
    let ghost av = spec_actual_lines(contents@);
    if marked.len() == 0 {
        proof {
            if seq_contains_char(contents@, '\\') {
                assert(spec_join_state(lv, mv, 0).out =~= Seq::<(bool, int, Seq<char>)>::empty());
            } else {
                assert(av =~= Seq::<(bool, int, Seq<char>)>::empty());
            }
            assert(av.len() == 0);
            assert(spec_collect_upto(av, 0) == Ok::<Seq<HotkeyView>, (ParseErrorKind, int)>(
                Seq::empty(),
            ));
        }
        let mode = Mode {
            name: String::from_str("normal"),
            hotkeys: Vec::new(),
            unbinds: Vec::new(),
            options: ModeOptions { swallow: false, oneoff: false },
        };
        let mut modes: Vec<Mode> = Vec::new();
        modes.push(mode);
        proof {
            assert(modes@[0]@.hotkeys =~= Seq::<HotkeyView>::empty());
            assert(modes@[0]@.unbinds =~= Seq::<crate::config::KeyBindingView>::empty());
        }
        return Ok(modes);
    }
    if contains_char(&cc, '\\') {
        let m0 = marked[0];
        let mut ty: bool = m0.0;
        let mut ln: usize = m0.1;
        let mut cur: Vec<char> = Vec::new();
        let mut k: usize = 0;
        proof {
            assert(mv[0] == (marked@[0].0, marked@[0].1 as int));
        }
        while k < marked.len()
            invariant
                k <= marked@.len(),
                marked@.len() >= 1,
                views(lines@) == lv,
                mv == spec_marked(lv, 0),
                mv =~= marked@.map_values(|m: (bool, usize)| (m.0, m.1 as int)),
                forall|t: int| 0 <= t < mv.len() ==> 0 <= (#[trigger] mv[t]).1 < lv.len(),
                spec_join_state(lv, mv, k as int) =~~= (JoinState {
                    ty,
                    ln: ln as int,
                    cur: cur@,
                    out: actual@.map_values(
                        |a: (bool, usize, Vec<char>)| (a.0, a.1 as int, a.2@),
                    ),
                }),
            decreases marked@.len() - k,
        {
            proof {
                assert(mv[k as int] == (marked@[k as int].0, marked@[k as int].1 as int));
            }
            let m = marked[k];
            if m.0 != ty {
                ty = m.0;
                ln = m.1;
                cur = Vec::new();
            }
            proof {
                assert(views(lines@)[marked@[k as int].1 as int] == lines@[marked@[
                    k as int
                ].1 as int]@);
            }
            let add0 = trim(&lines[m.1]);
            let cont = add0.len() > 0 && add0[add0.len() - 1] == '\\';
            let add = if cont {
                subrange_of(&add0, 0, add0.len() - 1)
            } else {
                add0
            };
            proof {
                if cont {
                    assert(add@ =~= spec_trim(lv[marked@[k as int].1 as int]).drop_last());
                }
            }
            push_all(&mut cur, &add);
            proof {
                assert(spec_join_state(lv, mv, k + 1) == spec_join_step(
                    lv,
                    spec_join_state(lv, mv, k as int),
                    mv[k as int],
                ));
            }
            if !cont {
                let ghost old_a = actual@;
                let done = subrange_of(&cur, 0, cur.len());
                actual.push((ty, ln, done));
                ty = m.0;
                ln = m.1;
                cur = Vec::new();
                proof {
                    assert(actual@.map_values(
                        |a: (bool, usize, Vec<char>)| (a.0, a.1 as int, a.2@),
                    ) =~~= old_a.map_values(|a: (bool, usize, Vec<char>)| (a.0, a.1 as int, a.2@)).push(
                        (actual@.last().0, actual@.last().1 as int, actual@.last().2@),
                    ));
                    assert(spec_join_state(lv, mv, k + 1) =~~= (JoinState {
                        ty,
                        ln: ln as int,
                        cur: cur@,
                        out: actual@.map_values(
                            |a: (bool, usize, Vec<char>)| (a.0, a.1 as int, a.2@),
                        ),
                    }));
                }
            } else {
                proof {
                    assert(spec_join_state(lv, mv, k + 1) =~~= (JoinState {
                        ty,
                        ln: ln as int,
                        cur: cur@,
                        out: actual@.map_values(
                            |a: (bool, usize, Vec<char>)| (a.0, a.1 as int, a.2@),
                        ),
                    }));
                }
            }
            k = k + 1;
        }
        proof {
            assert(av =~~= actual@.map_values(|a: (bool, usize, Vec<char>)| (a.0, a.1 as int, a.2@)));
        }
    } else {
        let mut k: usize = 0;
        while k < marked.len()
            invariant
                k <= marked@.len(),
                views(lines@) == lv,
                mv == spec_marked(lv, 0),
                mv =~= marked@.map_values(|m: (bool, usize)| (m.0, m.1 as int)),
                forall|t: int| 0 <= t < mv.len() ==> 0 <= (#[trigger] mv[t]).1 < lv.len(),
                actual@.map_values(|a: (bool, usize, Vec<char>)| (a.0, a.1 as int, a.2@)) =~~= mv.take(
                    k as int,
                ).map_values(|m: (bool, int)| (m.0, m.1, spec_trim(lv[m.1]))),
            decreases marked@.len() - k,
        {
            proof {
                assert(mv[k as int] == (marked@[k as int].0, marked@[k as int].1 as int));
                assert(views(lines@)[marked@[k as int].1 as int] == lines@[marked@[
                    k as int
                ].1 as int]@);
            }
            let m = marked[k];
            let t = trim(&lines[m.1]);
            let ghost old_a = actual@;
            actual.push((m.0, m.1, t));
            proof {
                assert(actual@.map_values(
                    |a: (bool, usize, Vec<char>)| (a.0, a.1 as int, a.2@),
                ) =~~= old_a.map_values(|a: (bool, usize, Vec<char>)| (a.0, a.1 as int, a.2@)).push((
                    m.0,
                    m.1 as int,
                    t@,
                )));
                assert(mv.take(k + 1).map_values(|m: (bool, int)| (m.0, m.1, spec_trim(lv[m.1])))
                    =~~= mv.take(k as int).map_values(
                    |m: (bool, int)| (m.0, m.1, spec_trim(lv[m.1])),
                ).push((mv[k as int].0, mv[k as int].1, spec_trim(lv[mv[k as int].1]))));
            }
            k = k + 1;
        }
        proof {
            assert(mv.take(mv.len() as int) =~= mv);
            assert(av =~~= actual@.map_values(|a: (bool, usize, Vec<char>)| (a.0, a.1 as int, a.2@)));
        }
    }
    // collect the hotkeys
    proof {
        assert(lv.len() <= cc@.len() + 1);
        if seq_contains_char(contents@, '\\') {
            lemma_join_bounds(lv, mv, mv.len() as int);
            assert(av == spec_join_state(lv, mv, mv.len() as int).out);
            assert(forall|t: int| 0 <= t < av.len() ==> 0 <= (#[trigger] av[t]).1 < lv.len());
        } else {
            assert(forall|t: int|
                0 <= t < av.len() ==> (#[trigger] av[t]).1 == mv[t].1 && 0 <= mv[t].1 < lv.len());
        }
        assert(forall|t: int| 0 <= t < av.len() ==> 0 <= (#[trigger] av[t]).1 + 2 <= u32::MAX);
    }
    let mut hotkeys: Vec<Hotkey> = Vec::new();
    let mut i2: usize = 0;
    proof {
        assert(hotkeys@.map_values(|h: Hotkey| h@) =~= Seq::<HotkeyView>::empty());
    }
    while i2 < actual.len()
        invariant
            i2 <= actual@.len(),
            av =~~= actual@.map_values(|a: (bool, usize, Vec<char>)| (a.0, a.1 as int, a.2@)),
            av == spec_actual_lines(contents@),
            contents@.len() + 2 <= u32::MAX,
            forall|t: int| 0 <= t < av.len() ==> 0 <= (#[trigger] av[t]).1 + 2 <= u32::MAX,
            spec_collect_upto(av, i2 as int) == Ok::<Seq<HotkeyView>, (ParseErrorKind, int)>(
                hotkeys@.map_values(|h: Hotkey| h@),
            ),
        decreases actual@.len() - i2,
    {
        proof {
            assert(av[i2 as int] == (actual@[i2 as int].0, actual@[i2 as int].1 as int, actual@[
                i2 as int
            ].2@));
        }
        let it_cmd = actual[i2].0;
        if !it_cmd && i2 + 1 < actual.len() {
            proof {
                assert(av[i2 + 1] == (actual@[i2 + 1].0, actual@[i2 + 1].1 as int, actual@[
                    i2 + 1
                ].2@));
            }
            if actual[i2 + 1].0 {
                let key_line = string_from_chars(&actual[i2].2);
                let cmd_line = string_from_chars(&actual[i2 + 1].2);
                let keys = extract_curly_brace(key_line.as_str());
                let cmds = extract_curly_brace(cmd_line.as_str());
                let ghost kv = spec_extract_curly_brace(av[i2 as int].2);
                let ghost cv = spec_extract_curly_brace(av[i2 + 1].2);
                let count = if keys.len() <= cmds.len() {
                    keys.len()
                } else {
                    cmds.len()
                };
                let ln32: u32 = (actual[i2].1 + 1) as u32;
                let ghost lnsp = av[i2 as int].1 + 1;
                let mut j: usize = 0;
                while j < count
                    invariant
                        j <= count,
                        count == spec_min(kv.len() as int, cv.len() as int),
                        str_views(keys@) == kv,
                        str_views(cmds@) == cv,
                        keys@.len() == kv.len(),
                        cmds@.len() == cv.len(),
                        ln32 as int == lnsp,
                        av == spec_actual_lines(contents@),
                        av.len() == actual@.len(),
                        i2 + 1 < av.len(),
                        !av[i2 as int].0,
                        av[i2 + 1].0,
                        kv == spec_extract_curly_brace(av[i2 as int].2),
                        cv == spec_extract_curly_brace(av[i2 + 1].2),
                        lnsp == av[i2 as int].1 + 1,
                        0 <= lnsp && lnsp + 1 <= u32::MAX,
                        spec_zip_parse(
                            spec_collect_upto(av, i2 as int)->Ok_0,
                            kv,
                            cv,
                            lnsp,
                            j as int,
                        ) == Ok::<Seq<HotkeyView>, (ParseErrorKind, int)>(
                            hotkeys@.map_values(|h: Hotkey| h@),
                        ),
                        spec_collect_upto(av, i2 as int) == Ok::<
                            Seq<HotkeyView>,
                            (ParseErrorKind, int),
                        >(spec_collect_upto(av, i2 as int)->Ok_0),
                    decreases count - j,
                {
                    proof {
                        assert(str_views(keys@)[j as int] == keys@[j as int]@);
                        assert(str_views(cmds@)[j as int] == cmds@[j as int]@);
                    }
                    let key_chars = chars_of(keys[j].as_str());
                    match parse_keybind(path.as_str(), &key_chars, ln32) {
                        Ok(kb) => {
                            let ghost old_h = hotkeys@.map_values(|h: Hotkey| h@);
                            let cmd = cmds[j].clone();
                            hotkeys = add_hotkey(hotkeys, kb, cmd);
                            proof {
                                assert(hotkeys@.map_values(|h: Hotkey| h@) == spec_add_hotkey(
                                    old_h,
                                    spec_parse_keybind(kv[j as int])->Ok_0,
                                    cv[j as int],
                                ));
                                assert(spec_zip_parse(
                                    spec_collect_upto(av, i2 as int)->Ok_0,
                                    kv,
                                    cv,
                                    lnsp,
                                    j + 1,
                                ) == Ok::<Seq<HotkeyView>, (ParseErrorKind, int)>(
                                    hotkeys@.map_values(|h: Hotkey| h@),
                                ));
                            }
                        },
                        Err(e) => {
                            proof {
                                assert(spec_zip_parse(
                                    spec_collect_upto(av, i2 as int)->Ok_0,
                                    kv,
                                    cv,
                                    lnsp,
                                    j + 1,
                                ) == Err::<Seq<HotkeyView>, (ParseErrorKind, int)>((
                                    spec_parse_keybind(kv[j as int])->Err_0,
                                    lnsp,
                                )));
                                lemma_zip_parse_err(
                                    spec_collect_upto(av, i2 as int)->Ok_0,
                                    kv,
                                    cv,
                                    lnsp,
                                    j + 1,
                                    count as int,
                                );
                                assert(av.len() == actual@.len());
                                assert(spec_collect_upto(av, i2 + 1) == Err::<
                                    Seq<HotkeyView>,
                                    (ParseErrorKind, int),
                                >((spec_parse_keybind(kv[j as int])->Err_0, lnsp)));
                                lemma_collect_err(av, i2 + 1, av.len() as int);
                            }
                            return Err(e);
                        },
                    }
                    j = j + 1;
                }
                proof {
                    assert(spec_collect_upto(av, i2 + 1) == Ok::<
                        Seq<HotkeyView>,
                        (ParseErrorKind, int),
                    >(hotkeys@.map_values(|h: Hotkey| h@)));
                }
            } else {
                proof {
                    assert(spec_collect_upto(av, i2 + 1) == Ok::<
                        Seq<HotkeyView>,
                        (ParseErrorKind, int),
                    >(hotkeys@.map_values(|h: Hotkey| h@)));
                }
            }
        } else {
            proof {
                assert(spec_collect_upto(av, i2 + 1) == Ok::<
                    Seq<HotkeyView>,
                    (ParseErrorKind, int),
                >(hotkeys@.map_values(|h: Hotkey| h@)));
            }
        }
        i2 = i2 + 1;
    }
    let mode = Mode {
        name: String::from_str("normal"),
        hotkeys,
        unbinds: Vec::new(),
        options: ModeOptions { swallow: false, oneoff: false },
    };
    let mut modes: Vec<Mode> = Vec::new();
    modes.push(mode);
    proof {
        assert(modes@[0]@.unbinds =~= Seq::<crate::config::KeyBindingView>::empty());
        assert(modes@[0]@ == (ModeView {
            name: "normal"@,
            hotkeys: spec_parse_contents(contents@)->Ok_0,
            unbinds: Seq::empty(),
            swallow: false,
            oneoff: false,
        }));
    }
    Ok(modes)
}

/// Once one pair fails, the whole zip fails with that error.
proof fn lemma_zip_parse_err(
    hks: Seq<HotkeyView>,
    keys: Seq<Seq<char>>,
    cmds: Seq<Seq<char>>,
    ln: int,
    j: int,
    end: int,
)
    requires
        j <= end,
        spec_zip_parse(hks, keys, cmds, ln, j) is Err,
    ensures
        spec_zip_parse(hks, keys, cmds, ln, end) == spec_zip_parse(hks, keys, cmds, ln, j),
    decreases end - j,
{
    if j < end {
        lemma_zip_parse_err(hks, keys, cmds, ln, j + 1, end);
    }
}

/// Once the collection fails, it stays failed.
proof fn lemma_collect_err(actual: Seq<(bool, int, Seq<char>)>, k: int, end: int)
    requires
        k <= end,
        spec_collect_upto(actual, k) is Err,
    ensures
        spec_collect_upto(actual, end) == spec_collect_upto(actual, k),
    decreases end - k,
{
    if k < end {
        lemma_collect_err(actual, k + 1, end);
    }
}

} // verus!
