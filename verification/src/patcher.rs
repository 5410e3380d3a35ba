use vstd::prelude::*;

use crate::order::{
    goes_before, is_index_permutation, law_stable_desc_order, lemma_sorted_permutation_unique,
    sorted_by_key, stable_desc_order, stable_desc_order_of,
};
use crate::rules::Patch;
use crate::text::{chars_of, string_of};

verus! {

/// The position of the first line break at or after `from`, if any.
pub open spec fn next_newline(text: Seq<char>, from: int) -> Option<int>
    decreases text.len() - from,
{
    if from < 0 || from >= text.len() {
        None
    } else if text[from] == '\n' {
        Some(from)
    } else {
        next_newline(text, from + 1)
    }
}

/// Where the line that contains position `from` ends: its line break, or the end of the text.
pub open spec fn line_end(text: Seq<char>, from: int) -> int {
    match next_newline(text, from) {
        Some(n) => n,
        None => text.len() as int,
    }
}

/// The position at which line `line` (counted from 1) begins, if the text has that line.
pub open spec fn line_start(text: Seq<char>, line: nat) -> Option<int>
    decreases line,
{
    if line == 0 {
        None
    } else if line == 1 {
        Some(0)
    } else {
        match line_start(text, (line - 1) as nat) {
            Some(q) => match next_newline(text, q) {
                Some(n) => Some(n + 1),
                None => None,
            },
            None => None,
        }
    }
}

/// The character position of (`line`, `column`): the column counts characters from the start
/// of the line and may reach the line's end (its line break, or the end of the text).
pub open spec fn char_offset(text: Seq<char>, line: nat, column: nat) -> Option<int> {
    match line_start(text, line) {
        Some(q) => if q + column <= line_end(text, q) {
            Some(q + column)
        } else {
            None
        },
        None => None,
    }
}

/// The range of positions a patch names in `text`, when both of its ends exist there.
pub open spec fn patch_range(text: Seq<char>, p: Patch) -> Option<(int, int)> {
    match (
        char_offset(text, p.start_line as nat, p.start_column as nat),
        char_offset(text, p.end_line as nat, p.end_column as nat),
    ) {
        (Some(s), Some(e)) => Some((s, e)),
        _ => None,
    }
}

/// Applies one patch: a patch whose ends do not both exist leaves the text as it is; one whose
/// end comes before its start cannot be applied (`None`).
pub open spec fn apply_patch(text: Seq<char>, p: Patch) -> Option<Seq<char>> {
    match patch_range(text, p) {
        Some((s, e)) => if s <= e {
            Some(text.take(s) + p.replacement@ + text.skip(e))
        } else {
            None
        },
        None => Some(text),
    }
}

/// Applies `ps` one after the other, each to the text the previous ones left.
pub open spec fn apply_in_sequence(text: Seq<char>, ps: Seq<Patch>) -> Option<Seq<char>>
    decreases ps.len(),
{
    if ps.len() == 0 {
        Some(text)
    } else {
        match apply_patch(text, ps[0]) {
            Some(t) => apply_in_sequence(t, ps.drop_first()),
            None => None,
        }
    }
}

/// The position key of each patch: its start line, then its start column.
pub open spec fn patch_keys(ps: Seq<Patch>) -> Seq<(u128, u128)> {
    ps.map_values(|p: Patch| (p.start_line as u128, p.start_column as u128))
}

/// The patches in the order they are applied: from the last start position in the text to
/// the first, patches with the same start in their original order.
pub open spec fn application_sequence(ps: Seq<Patch>) -> Seq<Patch> {
    stable_desc_order(patch_keys(ps)).map_values(|i: usize| ps[i as int])
}

/// The text that `Patcher::apply_patches` makes of `source`; `None` where a patch that is
/// applied has its end before its start.
pub open spec fn patched(source: Seq<char>, ps: Seq<Patch>) -> Option<Seq<char>> {
    apply_in_sequence(source, application_sequence(ps))
}

/// Each patch of `ps` replaces its own range of `text`, the range it names in `text` itself;
/// `ps` lists the patches from the last range to the first.
pub open spec fn splice_in_place(text: Seq<char>, ps: Seq<Patch>) -> Seq<char>
    decreases ps.len(),
{
    if ps.len() == 0 {
        text
    } else {
        let (s, e) = patch_range(text, ps[0]).unwrap();
        splice_in_place(text.take(s), ps.drop_first()) + ps[0].replacement@ + text.skip(e)
    }
}

/// Every patch of `ps` names a forward range of `text`, and each range lies at or after the
/// end of every range listed after it.
pub open spec fn ranges_in_place(text: Seq<char>, ps: Seq<Patch>) -> bool {
    &&& forall|k: int|
        0 <= k < ps.len() ==> (#[trigger] patch_range(text, ps[k]) matches Some(r) && r.0 <= r.1)
    &&& forall|k: int, m: int|
        0 <= k < m < ps.len() ==> patch_range(text, #[trigger] ps[m]).unwrap().1 <= patch_range(
            text,
            #[trigger] ps[k],
        ).unwrap().0
}

proof fn lemma_line_end_prefix(t1: Seq<char>, t2: Seq<char>, b: int, from: int)
    requires
        0 <= from <= b,
        b <= t1.len(),
        b <= t2.len(),
        forall|i: int| 0 <= i < b ==> t1[i] == t2[i],
    ensures
        (if line_end(t1, from) < b { line_end(t1, from) } else { b }) == (if line_end(t2, from)
            < b {
            line_end(t2, from)
        } else {
            b
        }),
        next_newline(t1, from) matches Some(n) ==> (n < b ==> next_newline(t2, from) == Some(n)),
    decreases b - from,
{
    lemma_next_newline_bounds(t1, from);
    lemma_next_newline_bounds(t2, from);
    if from < b {
        if t1[from] != '\n' {
            lemma_line_end_prefix(t1, t2, b, from + 1);
        }
    }
}

proof fn lemma_line_start_prefix(t1: Seq<char>, t2: Seq<char>, b: int, line: nat)
    requires
        0 <= b,
        b <= t1.len(),
        b <= t2.len(),
        forall|i: int| 0 <= i < b ==> t1[i] == t2[i],
    ensures
        line_start(t1, line) matches Some(q) ==> (q <= b ==> line_start(t2, line) == Some(q)),
    decreases line,
{
    if line > 1 {
        lemma_line_start_prefix(t1, t2, b, (line - 1) as nat);
        lemma_line_start_bounds(t1, (line - 1) as nat);
        if let Some(q0) = line_start(t1, (line - 1) as nat) {
            lemma_next_newline_bounds(t1, q0);
            if let Some(n) = next_newline(t1, q0) {
                if n + 1 <= b {
                    lemma_line_end_prefix(t1, t2, b, q0);
                }
            }
        }
    }
}

proof fn lemma_char_offset_prefix(t1: Seq<char>, t2: Seq<char>, b: int, line: nat, column: nat)
    requires
        0 <= b,
        b <= t1.len(),
        b <= t2.len(),
        forall|i: int| 0 <= i < b ==> t1[i] == t2[i],
    ensures
        char_offset(t1, line, column) matches Some(p) ==> (p <= b ==> char_offset(
            t2,
            line,
            column,
        ) == Some(p)),
{
    lemma_line_start_prefix(t1, t2, b, line);
    lemma_line_start_bounds(t1, line);
    if let Some(q) = line_start(t1, line) {
        if q + column <= line_end(t1, q) && q + column <= b {
            lemma_line_end_prefix(t1, t2, b, q);
        }
    }
}

proof fn lemma_patch_range_prefix(t1: Seq<char>, t2: Seq<char>, b: int, p: Patch)
    requires
        0 <= b,
        b <= t1.len(),
        b <= t2.len(),
        forall|i: int| 0 <= i < b ==> t1[i] == t2[i],
    ensures
        patch_range(t1, p) matches Some(r) ==> (r.0 <= b && r.1 <= b ==> patch_range(t2, p)
            == Some(r)),
{
    lemma_char_offset_prefix(t1, t2, b, p.start_line as nat, p.start_column as nat);
    lemma_char_offset_prefix(t1, t2, b, p.end_line as nat, p.end_column as nat);
}

proof fn lemma_char_offset_bounds(text: Seq<char>, line: nat, column: nat)
    ensures
        char_offset(text, line, column) matches Some(p) ==> 0 <= p <= text.len(),
{
    lemma_line_start_bounds(text, line);
    if let Some(q) = line_start(text, line) {
        lemma_next_newline_bounds(text, q);
    }
}

proof fn lemma_patch_range_bounds(text: Seq<char>, p: Patch)
    ensures
        patch_range(text, p) matches Some(r) ==> 0 <= r.0 <= text.len() && 0 <= r.1 <= text.len(),
{
    lemma_char_offset_bounds(text, p.start_line as nat, p.start_column as nat);
    lemma_char_offset_bounds(text, p.end_line as nat, p.end_column as nat);
}

/// Applying patches whose ranges lie in `x` and run from the last to the first, to `x`
/// followed by `y`, splices each into its own range and leaves `y` as it is.
proof fn lemma_apply_in_place(x: Seq<char>, y: Seq<char>, ps: Seq<Patch>)
    requires
        ranges_in_place(x, ps),
    ensures
        apply_in_sequence(x + y, ps) == Some(splice_in_place(x, ps) + y),
    decreases ps.len(),
{
    if ps.len() > 0 {
        let p0 = ps[0];
        lemma_patch_range_bounds(x, p0);
        let (s0, e0) = patch_range(x, p0).unwrap();
        let xy = x + y;
        lemma_patch_range_prefix(x, xy, x.len() as int, p0);
        assert(patch_range(xy, p0) == Some((s0, e0)));
        let x1 = x.take(s0);
        let y1 = p0.replacement@ + x.skip(e0) + y;
        assert(xy.take(s0) + p0.replacement@ + xy.skip(e0) =~= x1 + y1);
        let rest = ps.drop_first();
        assert forall|k: int| 0 <= k < rest.len() implies #[trigger] patch_range(x1, rest[k])
            == patch_range(x, rest[k]) by {
            assert(rest[k] == ps[k + 1]);
            lemma_patch_range_bounds(x, ps[k + 1]);
            lemma_patch_range_prefix(x, x1, s0, ps[k + 1]);
        }
        assert(ranges_in_place(x1, rest)) by {
            assert forall|k: int, m: int| 0 <= k < m < rest.len() implies patch_range(
                x1,
                #[trigger] rest[m],
            ).unwrap().1 <= patch_range(x1, #[trigger] rest[k]).unwrap().0 by {
                assert(rest[k] == ps[k + 1] && rest[m] == ps[m + 1]);
            }
            assert forall|k: int| 0 <= k < rest.len() implies (#[trigger] patch_range(
                x1,
                rest[k],
            ) matches Some(r) && r.0 <= r.1) by {
                assert(rest[k] == ps[k + 1]);
            }
        }
        lemma_apply_in_place(x1, y1, rest);
        assert(splice_in_place(x, ps) + y =~= splice_in_place(x1, rest) + y1);
    }
}

/// The law of bottom-up patching: when every patch names a forward range of `source`, and
/// each patch's range ends at or before the start of every patch applied before it (those
/// starting later, and those with the same start listed earlier), every replacement lands
/// exactly in the range its patch names in the original `source`.
pub proof fn law_patches_land_in_place(source: Seq<char>, ps: Seq<Patch>)
    requires
        ps.len() <= usize::MAX,
        forall|i: int|
            0 <= i < ps.len() ==> (#[trigger] patch_range(source, ps[i]) matches Some(r) && r.0
                <= r.1),
        forall|i: int, j: int|
            0 <= i < ps.len() && 0 <= j < ps.len() && i != j && goes_before(patch_keys(ps), i, j)
                ==> patch_range(source, #[trigger] ps[j]).unwrap().1 <= patch_range(
                source,
                #[trigger] ps[i],
            ).unwrap().0,
    ensures
        patched(source, ps) == Some(splice_in_place(source, application_sequence(ps))),
{
    let keys = patch_keys(ps);
    law_stable_desc_order(keys);
    let order = stable_desc_order(keys);
    let a = application_sequence(ps);
    assert forall|k: int| 0 <= k < a.len() implies a[k] == ps[order[k] as int] by {}
    assert(ranges_in_place(source, a)) by {
        assert forall|k: int| 0 <= k < a.len() implies (#[trigger] patch_range(source, a[k]) matches Some(
            r,
        ) && r.0 <= r.1) by {
            assert(a[k] == ps[order[k] as int]);
        }
        assert forall|k: int, m: int| 0 <= k < m < a.len() implies patch_range(
            source,
            #[trigger] a[m],
        ).unwrap().1 <= patch_range(source, #[trigger] a[k]).unwrap().0 by {
            assert(goes_before(keys, order[k] as int, order[m] as int));
            assert(a[k] == ps[order[k] as int] && a[m] == ps[order[m] as int]);
            assert(order[k] != order[m]);
        }
    }
    lemma_apply_in_place(source, Seq::<char>::empty(), a);
    assert(source + Seq::<char>::empty() =~= source);
    assert(splice_in_place(source, a) + Seq::<char>::empty() =~= splice_in_place(source, a));
}

/// Applies [`Patch`]es to source text.
pub struct Patcher;

/// The first line break at or after `from`.
fn find_newline(text: &Vec<char>, from: usize) -> (r: Option<usize>)
    requires
        from <= text.len(),
    ensures
        match r {
            Some(n) => next_newline(text@, from as int) == Some(n as int),
            None => next_newline(text@, from as int) is None,
        },
{
    let mut k = from;
    while k < text.len()
        invariant
            from <= k <= text.len(),
            next_newline(text@, from as int) == next_newline(text@, k as int),
        decreases text.len() - k,
    {
        if text[k] == '\n' {
            return Some(k);
        }
        k = k + 1;
    }
    None
}

proof fn lemma_next_newline_bounds(text: Seq<char>, from: int)
    requires
        0 <= from,
    ensures
        next_newline(text, from) matches Some(n) ==> from <= n < text.len() && text[n] == '\n',
    decreases text.len() - from,
{
    if from < text.len() && text[from] != '\n' {
        lemma_next_newline_bounds(text, from + 1);
    }
}

proof fn lemma_line_start_bounds(text: Seq<char>, line: nat)
    ensures
        line_start(text, line) matches Some(q) ==> 0 <= q <= text.len(),
    decreases line,
{
    if line > 1 {
        lemma_line_start_bounds(text, (line - 1) as nat);
        if let Some(q) = line_start(text, (line - 1) as nat) {
            lemma_next_newline_bounds(text, q);
        }
    }
}

proof fn lemma_line_start_none_after(text: Seq<char>, line: nat, later: nat)
    requires
        1 <= line <= later,
        line_start(text, line) is None,
    ensures
        line_start(text, later) is None,
    decreases later - line,
{
    if line < later {
        lemma_line_start_none_after(text, line, (later - 1) as nat);
    }
}

/// The character position of (`line`, `column`) in `text`.
fn offset_of(text: &Vec<char>, line: usize, column: usize) -> (r: Option<usize>)
    ensures
        match r {
            Some(p) => char_offset(text@, line as nat, column as nat) == Some(p as int),
            None => char_offset(text@, line as nat, column as nat) is None,
        },
{
    if line == 0 {
        return None;
    }
    let mut q: usize = 0;
    let mut l: usize = 1;
    while l < line
        invariant
            1 <= l <= line,
            q <= text.len(),
            line_start(text@, l as nat) == Some(q as int),
        decreases line - l,
    {
        match find_newline(text, q) {
            Some(n) => {
                proof {
                    lemma_next_newline_bounds(text@, q as int);
                }
                q = n + 1;
                l = l + 1;
            },
            None => {
                proof {
                    lemma_line_start_none_after(text@, (l + 1) as nat, line as nat);
                }
                return None;
            },
        }
    }
    let end = match find_newline(text, q) {
        Some(n) => n,
        None => text.len(),
    };
    proof {
        lemma_next_newline_bounds(text@, q as int);
    }
    if column <= end - q {
        Some(q + column)
    } else {
        None
    }
}

/// Builds `text[..s] + replacement + text[e..]`.
fn splice(text: &Vec<char>, s: usize, e: usize, replacement: &Vec<char>) -> (r: Vec<char>)
    requires
        s <= e <= text.len(),
    ensures
        r@ == text@.take(s as int) + replacement@ + text@.skip(e as int),
{
    let mut r: Vec<char> = Vec::new();
    let mut k: usize = 0;
    while k < s
        invariant
            k <= s <= e <= text.len(),
            r@ == text@.take(k as int),
        decreases s - k,
    {
        r.push(text[k]);
        assert(text@.take(k + 1) =~= text@.take(k as int).push(text@[k as int]));
        k = k + 1;
    }
    let mut m: usize = 0;
    while m < replacement.len()
        invariant
            m <= replacement.len(),
            r@ == text@.take(s as int) + replacement@.take(m as int),
        decreases replacement.len() - m,
    {
        r.push(replacement[m]);
        assert(replacement@.take(m + 1) =~= replacement@.take(m as int).push(replacement@[m as int]));
        m = m + 1;
    }
    assert(replacement@.take(replacement.len() as int) =~= replacement@);
    let mut k: usize = e;
    while k < text.len()
        invariant
            e <= k <= text.len(),
            r@ == text@.take(s as int) + replacement@ + text@.subrange(e as int, k as int),
        decreases text.len() - k,
    {
        r.push(text[k]);
        assert(text@.subrange(e as int, k + 1) =~= text@.subrange(e as int, k as int).push(
            text@[k as int],
        ));
        k = k + 1;
    }
    assert(text@.subrange(e as int, text.len() as int) =~= text@.skip(e as int));
    r
}

impl Patcher {
    /// Apply a set of non-overlapping patches to `source`.
    ///
    /// Patches are applied from the last start position to the first, so that applying one
    /// does not move the positions of those still to come; a patch whose ends do not exist in
    /// the text is skipped.
    pub fn apply_patches(source: &str, patches: &[Patch]) -> (res: String)
        requires
            patched(source@, patches@) is Some,
        ensures
            patched(source@, patches@) == Some(res@),
            patches@.len() == 0 ==> res@ == source@,
    {
        if patches.len() == 0 {
            return source.to_owned();
        }
        let mut keys: Vec<(u128, u128)> = Vec::new();
        let mut i: usize = 0;
        while i < patches.len()
            invariant
                i <= patches.len(),
                keys@ == patch_keys(patches@).take(i as int),
            decreases patches.len() - i,
        {
            let p = &patches[i];
            keys.push((p.start_line as u128, p.start_column as u128));
            assert(keys@ =~= patch_keys(patches@).take(i + 1));
            i = i + 1;
        }
        assert(keys@ =~= patch_keys(patches@));
        let order = stable_desc_order_of(&keys);
        let ghost seq_ps = application_sequence(patches@);
        proof {
            law_stable_desc_order(keys@);
        }
        let mut text = chars_of(source);
        assert(seq_ps.skip(0) =~= seq_ps);
        let mut k: usize = 0;
        while k < order.len()
            invariant
                order@ == stable_desc_order(patch_keys(patches@)),
                order@.len() == patches@.len(),
                forall|a: int| 0 <= a < order@.len() ==> order@[a] < patches@.len(),
                seq_ps == application_sequence(patches@),
                seq_ps.len() == order@.len(),
                k <= order.len(),
                apply_in_sequence(text@, seq_ps.skip(k as int)) == patched(source@, patches@),
                patched(source@, patches@) is Some,
            decreases order.len() - k,
        {
            let p = &patches[order[k]];
            assert(seq_ps[k as int] == *p);
            assert(seq_ps.skip(k as int).drop_first() =~= seq_ps.skip(k + 1));
            match Self::calculate_offsets(&text, p) {
                None => {},
                Some((s, e)) => {
                    proof {
                        lemma_line_start_bounds(text@, p.end_line as nat);
                        lemma_next_newline_bounds(text@, line_start(text@, p.end_line as nat).unwrap());
                    }
                    let replacement = chars_of(p.replacement.as_str());
                    text = splice(&text, s, e, &replacement);
                },
            }
            k = k + 1;
        }
        assert(seq_ps.skip(order.len() as int) =~= Seq::<Patch>::empty());
        string_of(&text)
    }

    /// The character range that `patch` names in `source`, when both of its ends exist there.
    fn calculate_offsets(source: &Vec<char>, patch: &Patch) -> (r: Option<(usize, usize)>)
        ensures
            match r {
                Some((s, e)) => patch_range(source@, *patch) == Some((s as int, e as int)),
                None => patch_range(source@, *patch) is None,
            },
    {
        let start = offset_of(source, patch.start_line, patch.start_column);
        let end = offset_of(source, patch.end_line, patch.end_column);
        match (start, end) {
            (Some(s), Some(e)) => Some((s, e)),
            _ => None,
        }
    }
}


/// A line that comes before another ends before the later one begins.
proof fn lemma_line_start_order(text: Seq<char>, l1: nat, l2: nat)
    requires
        1 <= l1 < l2,
        line_start(text, l2) is Some,
    ensures
        line_start(text, l1) is Some,
        line_end(text, line_start(text, l1).unwrap()) < line_start(text, l2).unwrap(),
    decreases l2,
{
    let prev = (l2 - 1) as nat;
    if line_start(text, prev) is None {
        assert(line_start(text, l2) is None);
    }
    lemma_line_start_bounds(text, prev);
    let q = line_start(text, prev).unwrap();
    lemma_next_newline_bounds(text, q);
    if l1 < prev {
        lemma_line_start_order(text, l1, prev);
        let q1 = line_start(text, l1).unwrap();
        lemma_line_start_bounds(text, l1);
        lemma_next_newline_bounds(text, q1);
    }
}

/// The start of a patch does not come after its end, as (line, column) pairs.
pub open spec fn is_forward(p: Patch) -> bool {
    p.start_line < p.end_line || (p.start_line == p.end_line && p.start_column <= p.end_column)
}

/// A forward patch never fails to apply.
proof fn lemma_forward_patch_applies(text: Seq<char>, p: Patch)
    requires
        is_forward(p),
    ensures
        apply_patch(text, p) is Some,
{
    if let Some((s, e)) = patch_range(text, p) {
        if p.start_line < p.end_line {
            lemma_line_start_order(text, p.start_line as nat, p.end_line as nat);
        }
    }
}

proof fn lemma_forward_sequence_applies(text: Seq<char>, ps: Seq<Patch>)
    requires
        forall|k: int| 0 <= k < ps.len() ==> is_forward(#[trigger] ps[k]),
    ensures
        apply_in_sequence(text, ps) is Some,
    decreases ps.len(),
{
    if ps.len() > 0 {
        lemma_forward_patch_applies(text, ps[0]);
        let t = apply_patch(text, ps[0]).unwrap();
        let rest = ps.drop_first();
        assert forall|k: int| 0 <= k < rest.len() implies is_forward(#[trigger] rest[k]) by {
            assert(rest[k] == ps[k + 1]);
        }
        lemma_forward_sequence_applies(t, rest);
    }
}

/// Patches whose starts never come after their ends can always be applied: for such patches
/// `Patcher::apply_patches` is defined on every source text.
pub proof fn law_forward_patches_apply(source: Seq<char>, ps: Seq<Patch>)
    requires
        ps.len() <= usize::MAX,
        forall|k: int| 0 <= k < ps.len() ==> is_forward(#[trigger] ps[k]),
    ensures
        patched(source, ps) is Some,
{
    law_stable_desc_order(patch_keys(ps));
    let order = stable_desc_order(patch_keys(ps));
    let app = application_sequence(ps);
    assert forall|k: int| 0 <= k < app.len() implies is_forward(#[trigger] app[k]) by {
        assert(app[k] == ps[order[k] as int]);
    }
    lemma_forward_sequence_applies(source, app);
}

/// No two patches of `ps` start at the same (line, column).
pub open spec fn distinct_starts(ps: Seq<Patch>) -> bool {
    forall|a: int, b: int|
        0 <= a < b < ps.len() ==> (#[trigger] ps[a].start_line, ps[a].start_column) != (
            #[trigger] ps[b].start_line,
            ps[b].start_column,
        )
}

/// The order in which patches are listed does not matter when no two start at the same
/// position: listing them in any other order gives the same application order, hence the
/// same patched text.
pub proof fn law_patch_order_is_irrelevant(source: Seq<char>, ps: Seq<Patch>, qs: Seq<Patch>, perm: Seq<usize>)
    requires
        ps.len() <= usize::MAX,
        distinct_starts(ps),
        is_index_permutation(perm, ps.len()),
        qs.len() == ps.len(),
        forall|k: int| 0 <= k < qs.len() ==> #[trigger] qs[k] == ps[perm[k] as int],
    ensures
        application_sequence(qs) == application_sequence(ps),
        patched(source, qs) == patched(source, ps),
{
    let kp = patch_keys(ps);
    let kq = patch_keys(qs);
    let n = ps.len();
    law_stable_desc_order(kp);
    law_stable_desc_order(kq);
    let op = stable_desc_order(kp);
    let oq = stable_desc_order(kq);
    let moved = oq.map_values(|i: usize| perm[i as int]);
    assert(is_index_permutation(moved, n)) by {
        assert forall|a: int| 0 <= a < moved.len() implies moved[a] < n by {
            assert(oq[a] < n);
        }
        assert forall|k: usize| k < n implies #[trigger] moved.contains(k) by {
            assert(perm.contains(k));
            let m = choose|m: int| 0 <= m < perm.len() && perm[m] == k;
            assert(oq.contains(m as usize));
            let a = choose|a: int| 0 <= a < oq.len() && oq[a] == m as usize;
            assert(moved[a] == k);
        }
        assert forall|a: int, b: int| 0 <= a < b < moved.len() implies moved[a] != moved[b] by {
            assert(oq[a] != oq[b]);
            assert(oq[a] < n && oq[b] < n);
            if oq[a] < oq[b] {
                assert(perm[oq[a] as int] != perm[oq[b] as int]);
            } else {
                assert(perm[oq[b] as int] != perm[oq[a] as int]);
            }
        }
    }
    assert(sorted_by_key(kp, moved)) by {
        assert forall|a: int, b: int| 0 <= a < b < moved.len() implies goes_before(
            kp,
            moved[a] as int,
            moved[b] as int,
        ) by {
            let i = oq[a] as int;
            let j = oq[b] as int;
            assert(goes_before(kq, i, j));
            assert(kq[i] == kp[perm[i] as int]);
            assert(kq[j] == kp[perm[j] as int]);
            let pi = perm[i] as int;
            let pj = perm[j] as int;
            assert(pi != pj);
            if pi < pj {
                assert(kp[pi] != kp[pj]);
            } else {
                assert(kp[pj] != kp[pi]);
            }
        }
    }
    lemma_sorted_permutation_unique(kp, moved, op);
    assert(application_sequence(qs) =~= application_sequence(ps)) by {
        assert forall|a: int| 0 <= a < n implies #[trigger] application_sequence(qs)[a]
            == application_sequence(ps)[a] by {
            assert(moved[a] == op[a]);
            assert(qs[oq[a] as int] == ps[perm[oq[a] as int] as int]);
        }
    }
}


/// Positions that exist in the text keep the order of their (line, column) pairs: a pair that
/// comes first, line by line and then column by column, lies strictly earlier in the text.
proof fn lemma_char_offset_strictly_ordered(
    text: Seq<char>,
    l1: nat,
    c1: nat,
    l2: nat,
    c2: nat,
)
    requires
        l1 < l2 || (l1 == l2 && c1 < c2),
        char_offset(text, l1, c1) is Some,
        char_offset(text, l2, c2) is Some,
    ensures
        char_offset(text, l1, c1).unwrap() < char_offset(text, l2, c2).unwrap(),
{
    if l1 < l2 {
        assert(l1 >= 1);
        lemma_line_start_order(text, l1, l2);
    }
}

/// Patches that start at distinct positions and name disjoint forward ranges of `source` land,
/// whatever order they are listed in, each in the range it names in `source`: the result is
/// the text with each replacement spliced into its own original range. `qs` lists the same
/// patches from the last range in the text to the first (so on one line a patch further right
/// comes first), which is how `splice_in_place` reads them.
pub proof fn law_disjoint_patches_land_in_their_ranges(
    source: Seq<char>,
    ps: Seq<Patch>,
    qs: Seq<Patch>,
    perm: Seq<usize>,
)
    requires
        ps.len() <= usize::MAX,
        distinct_starts(ps),
        is_index_permutation(perm, ps.len()),
        qs.len() == ps.len(),
        forall|k: int| 0 <= k < qs.len() ==> #[trigger] qs[k] == ps[perm[k] as int],
        ranges_in_place(source, qs),
    ensures
        patched(source, ps) == Some(splice_in_place(source, qs)),
{
    let keys = patch_keys(ps);
    let n = ps.len();
    law_stable_desc_order(keys);
    let order = stable_desc_order(keys);
    assert(sorted_by_key(keys, perm)) by {
        assert forall|a: int, b: int| 0 <= a < b < perm.len() implies goes_before(
            keys,
            perm[a] as int,
            perm[b] as int,
        ) by {
            let pa = perm[a] as int;
            let pb = perm[b] as int;
            let x = qs[a];
            let y = qs[b];
            assert(x == ps[pa] && y == ps[pb]);
            assert(pa != pb);
            if pa < pb {
                assert((ps[pa].start_line, ps[pa].start_column) != (ps[pb].start_line, ps[pb].start_column));
            } else {
                assert((ps[pb].start_line, ps[pb].start_column) != (ps[pa].start_line, ps[pa].start_column));
            }
            assert(patch_range(source, x) matches Some(r) && r.0 <= r.1);
            assert(patch_range(source, y) matches Some(r) && r.0 <= r.1);
            assert(patch_range(source, y).unwrap().1 <= patch_range(source, x).unwrap().0);
            if !(x.start_line > y.start_line || (x.start_line == y.start_line && x.start_column
                > y.start_column)) {
                lemma_char_offset_strictly_ordered(
                    source,
                    x.start_line as nat,
                    x.start_column as nat,
                    y.start_line as nat,
                    y.start_column as nat,
                );
            }
            assert(keys[pa] == (x.start_line as u128, x.start_column as u128));
            assert(keys[pb] == (y.start_line as u128, y.start_column as u128));
        }
    }
    lemma_sorted_permutation_unique(keys, perm, order);
    assert(application_sequence(ps) =~= qs);
    lemma_apply_in_place(source, Seq::<char>::empty(), qs);
    assert(source + Seq::<char>::empty() =~= source);
    assert(splice_in_place(source, qs) + Seq::<char>::empty() =~= splice_in_place(source, qs));
}


proof fn lemma_no_newline(text: Seq<char>, from: int)
    requires
        0 <= from,
        forall|i: int| 0 <= i < text.len() ==> text[i] != '\n',
    ensures
        next_newline(text, from) is None,
    decreases text.len() - from,
{
    if from < text.len() {
        lemma_no_newline(text, from + 1);
    }
}

proof fn lemma_single_application(ps: Seq<Patch>)
    requires
        ps.len() == 1,
    ensures
        application_sequence(ps) == ps,
{
    law_stable_desc_order(patch_keys(ps));
    let order = stable_desc_order(patch_keys(ps));
    assert(order.contains(0usize));
    assert(order[0] == 0);
    assert(application_sequence(ps) =~= ps);
}

/// On a text of one line, a patch of that line (line 1) with columns
/// `start_column <= end_column <= length` replaces exactly the characters from `start_column`
/// up to `end_column`.
pub proof fn law_one_line_patch(source: Seq<char>, p: Patch)
    requires
        forall|i: int| 0 <= i < source.len() ==> source[i] != '\n',
        p.start_line == 1,
        p.end_line == 1,
        p.start_column <= p.end_column <= source.len(),
    ensures
        patched(source, seq![p]) == Some(
            source.take(p.start_column as int) + p.replacement@ + source.skip(p.end_column as int),
        ),
{
    lemma_single_application(seq![p]);
    lemma_no_newline(source, 0);
    let t = source.take(p.start_column as int) + p.replacement@ + source.skip(p.end_column as int);
    assert(line_start(source, 1) == Some(0int));
    assert(apply_patch(source, p) == Some(t));
    assert(seq![p].drop_first() =~= Seq::<Patch>::empty());
    assert(apply_in_sequence(t, Seq::<Patch>::empty()) == Some(t));
    assert(apply_in_sequence(source, seq![p]) == Some(t));
}

/// A patch that names a line the text does not have (line 0, or any line after the last)
/// leaves the text as it is.
pub proof fn law_patch_off_the_text_is_skipped(source: Seq<char>, p: Patch)
    requires
        forall|i: int| 0 <= i < source.len() ==> source[i] != '\n',
        p.start_line != 1,
    ensures
        patched(source, seq![p]) == Some(source),
{
    lemma_single_application(seq![p]);
    lemma_no_newline(source, 0);
    if p.start_line >= 2 {
        assert(line_start(source, 1) == Some(0int));
        assert(line_start(source, 2) is None);
        lemma_line_start_none_after(source, 2, p.start_line as nat);
    }
    assert(apply_patch(source, p) == Some(source));
    assert(seq![p].drop_first() =~= Seq::<Patch>::empty());
    assert(apply_in_sequence(source, Seq::<Patch>::empty()) == Some(source));
    assert(apply_in_sequence(source, seq![p]) == Some(source));
}

} // verus!
