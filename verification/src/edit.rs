//! Pure planning for the `edit_file` tool: an exact, or else whitespace-tolerant,
//! replacement of `old_string` by `new_string`, without any filesystem I/O.
use vstd::prelude::*;

use crate::lines::{
    all_blank, lemma_blank_padded_block_is_found,
    block_starts, lemma_block_starts, lemma_line_bounds, lemma_newline_ends, newline_ends, lemma_seek_range, line_bounds,
    chars_equal, line_bounds_chars, line_views, seek_sequence, split_lines_chars,
    split_lines_spec,
};
use crate::text::{lemma_encode_concat, chars_of, decimal, push_decimal, string_from_chars, string_from_utf8};
use vstd::utf8::*;

verus! {

/// Note appended to model-facing output when whitespace-tolerant matching was used.
pub const FUZZY_MATCH_NOTE: &'static str =
    " Note: old_string matched only after ignoring whitespace and Unicode punctuation differences.";

/// Number of context lines included in the generated unified diff.
pub const DIFF_CONTEXT_LINES: usize = 1;

/// A precise single-file replacement request.
#[derive(Clone, Debug, PartialEq, Eq)]
pub struct EditRequest {
    pub old_string: String,
    pub new_string: String,
    pub replace_all: bool,
}

/// Which matching strategy produced the edit.
#[derive(Clone, Copy, Debug, PartialEq, Eq, Structural)]
pub enum EditMatch {
    Exact,
    Fuzzy,
}

/// A validated, in-memory edit ready to be committed by the caller.
#[derive(Clone, Debug, PartialEq, Eq)]
pub struct EditPlan {
    pub updated: String,
    pub replacements: usize,
    pub match_kind: EditMatch,
    pub unified_diff: String,
    pub message: String,
}

/// Validation and matching failures for a single-file edit.
#[derive(Clone, Copy, Debug, PartialEq, Eq, Structural)]
pub enum EditError {
    EmptyOldString,
    IdenticalStrings,
    AmbiguousExact { matches: usize },
    AmbiguousFuzzy { matches: usize },
    NotFound,
}

impl EditError {
    pub open spec fn message_text(self) -> Seq<char> {
        match self {
            EditError::EmptyOldString =>
                "old_string must not be empty; use apply_patch to create a new file"@,
            EditError::IdenticalStrings =>
                "old_string and new_string are identical; nothing to change"@,
            EditError::AmbiguousExact { matches } => "old_string appears "@ + decimal(
                matches as nat,
            )
                + " times in the file. Add surrounding context to make it unique, or set replace_all to true."@,
            EditError::AmbiguousFuzzy { matches } => "old_string matches "@ + decimal(
                matches as nat,
            )
                + "+ locations in the file. Add surrounding context to make it unique, or set replace_all to true."@,
            EditError::NotFound =>
                "old_string was not found in the file. Read the file and copy the exact text, including whitespace."@,
        }
    }

    /// The model-facing description of the failure.
    pub fn message(&self) -> (message: String)
        ensures
            message@ == self.message_text(),
    {
        let mut message = String::new();
        match *self {
            EditError::EmptyOldString => {
                message.append("old_string must not be empty; use apply_patch to create a new file");
            },
            EditError::IdenticalStrings => {
                message.append("old_string and new_string are identical; nothing to change");
            },
            EditError::AmbiguousExact { matches } => {
                message.append("old_string appears ");
                push_decimal(&mut message, matches as u64);
                message.append(
                    " times in the file. Add surrounding context to make it unique, or set replace_all to true.",
                );
            },
            EditError::AmbiguousFuzzy { matches } => {
                message.append("old_string matches ");
                push_decimal(&mut message, matches as u64);
                message.append(
                    "+ locations in the file. Add surrounding context to make it unique, or set replace_all to true.",
                );
            },
            EditError::NotFound => {
                message.append(
                    "old_string was not found in the file. Read the file and copy the exact text, including whitespace.",
                );
            },
        }
        message
    }
}

/// `p` occurs in `h` at position `i`.
pub open spec fn occurs_at(h: Seq<char>, p: Seq<char>, i: int) -> bool {
    0 <= i && i + p.len() <= h.len() && h.subrange(i, i + p.len()) == p
}

/// First position at or after `from` where `p` occurs in `h`.
pub open spec fn first_occurrence(h: Seq<char>, p: Seq<char>, from: int) -> Option<int>
    decreases h.len() + 1 - from,
{
    if from < 0 || from + p.len() > h.len() {
        None
    } else if occurs_at(h, p, from) {
        Some(from)
    } else {
        first_occurrence(h, p, from + 1)
    }
}

/// Starts of the non-overlapping occurrences of a non-empty `p`, found left to right
/// from `from` (what `str::matches` yields).
pub open spec fn occurrences(h: Seq<char>, p: Seq<char>, from: int) -> Seq<int>
    decreases h.len() - from,
{
    if p.len() == 0 {
        seq![]
    } else {
        match first_occurrence(h, p, from) {
            None => seq![],
            Some(i) => if from <= i <= h.len() - p.len() {
                seq![i] + occurrences(h, p, i + p.len())
            } else {
                seq![]
            },
        }
    }
}

/// `h` from `from` on, with every such occurrence of `p` replaced by `r` (what
/// `str::replace` yields).
pub open spec fn replace_all_from(h: Seq<char>, p: Seq<char>, r: Seq<char>, from: int) -> Seq<
    char,
>
    decreases h.len() - from,
{
    if p.len() == 0 {
        h.skip(from)
    } else {
        match first_occurrence(h, p, from) {
            None => h.skip(from),
            Some(i) => if from <= i <= h.len() - p.len() {
                h.subrange(from, i) + r + replace_all_from(h, p, r, i + p.len())
            } else {
                h.skip(from)
            },
        }
    }
}

/// The replacement bytes for a matched block of whole lines: they end with a newline
/// exactly when the replaced block does.
pub open spec fn adjust_replacement(r: Seq<u8>, block_ends_with_newline: bool) -> Seq<u8> {
    let r_nl = r.len() > 0 && r.last() == 10u8;
    if block_ends_with_newline && !r_nl {
        r.push(10u8)
    } else if !block_ends_with_newline && r_nl {
        r.drop_last()
    } else {
        r
    }
}

/// Replaces the matched blocks in `u`, the last start first. Each block is the byte range
/// `bounds[s]..bounds[s + plen]` of the original text `ob`, spliced into the text as the
/// earlier replacements left it. `None` when a step cannot be made: an index or a range
/// out of bounds, or a range end that is not a character boundary.
pub open spec fn apply_from(
    u: Seq<u8>,
    ob: Seq<u8>,
    bounds: Seq<int>,
    plen: int,
    r: Seq<u8>,
    starts: Seq<int>,
) -> Option<Seq<u8>>
    decreases starts.len(),
{
    if starts.len() == 0 {
        Some(u)
    } else {
        let s = starts.last();
        if !(0 <= s && s + plen < bounds.len() && 0 <= plen) {
            None
        } else {
            let lo = bounds[s];
            let hi = bounds[s + plen];
            if !(0 <= lo <= hi <= ob.len() && is_char_boundary(ob, lo) && is_char_boundary(ob, hi)
                && hi <= u.len() && is_char_boundary(u, lo) && is_char_boundary(u, hi)) {
                None
            } else {
                let block_nl = lo < hi && ob[hi - 1] == 10u8;
                apply_from(
                    u.take(lo) + adjust_replacement(r, block_nl) + u.skip(hi),
                    ob,
                    bounds,
                    plen,
                    r,
                    starts.drop_last(),
                )
            }
        }
    }
}

/// The bytes the whitespace-tolerant replacement leaves, if it can be made.
pub open spec fn fuzzy_bytes(original: Seq<char>, old: Seq<char>, new: Seq<char>, starts: Seq<int>) -> Option<
    Seq<u8>,
> {
    let ob = encode_utf8(original);
    apply_from(
        ob,
        ob,
        byte_line_bounds(ob),
        split_lines_spec(old).len() as int,
        encode_utf8(new),
        starts,
    )
}

/// Block starts of the whitespace-tolerant search, stopping at the second match unless
/// every match is to be replaced.
pub open spec fn fuzzy_starts(original: Seq<char>, old: Seq<char>, replace_all: bool) -> Seq<int> {
    let all = block_starts(split_lines_spec(original), split_lines_spec(old), 0);
    if !replace_all && all.len() > 2 {
        all.take(2)
    } else {
        all
    }
}

pub open spec fn fuzzy_note() -> Seq<char> {
    FUZZY_MATCH_NOTE@
}

/// The text a successful edit leaves, how many replacements it made, which strategy
/// matched, and the model-facing message.
pub struct EditResultView {
    pub updated: Seq<char>,
    pub replacements: nat,
    pub match_kind: EditMatch,
    pub message: Seq<char>,
}

/// What `plan_edit` decides for a request.
pub open spec fn edit_spec(original: Seq<char>, old: Seq<char>, new: Seq<char>, replace_all: bool) -> Result<
    EditResultView,
    EditError,
> {
    if old.len() == 0 {
        Err(EditError::EmptyOldString)
    } else if old == new {
        Err(EditError::IdenticalStrings)
    } else {
        let exact = occurrences(original, old, 0).len();
        if exact == 1 {
            Ok(
                EditResultView {
                    updated: replace_all_from(original, old, new, 0),
                    replacements: 1,
                    match_kind: EditMatch::Exact,
                    message: "The file has been updated."@,
                },
            )
        } else if exact > 1 {
            if !replace_all {
                Err(EditError::AmbiguousExact { matches: exact as usize })
            } else {
                Ok(
                    EditResultView {
                        updated: replace_all_from(original, old, new, 0),
                        replacements: exact,
                        match_kind: EditMatch::Exact,
                        message: "The file has been updated ("@ + decimal(exact)
                            + " occurrences replaced)."@,
                    },
                )
            }
        } else {
            let starts = fuzzy_starts(original, old, replace_all);
            if starts.len() == 0 {
                Err(EditError::NotFound)
            } else if starts.len() > 1 && !replace_all {
                Err(EditError::AmbiguousFuzzy { matches: starts.len() as usize })
            } else {
                Ok(
                    EditResultView {
                        updated: decode_utf8(fuzzy_bytes(original, old, new, starts)->Some_0),
                        replacements: starts.len(),
                        match_kind: EditMatch::Fuzzy,
                        message: "The file has been updated ("@ + decimal(starts.len())
                            + " occurrence(s) replaced)."@ + fuzzy_note(),
                    },
                )
            }
        }
    }
}

/// The inputs on which `plan_edit` can make its edit: when it falls back to the
/// whitespace-tolerant replacement, every block's byte range lies within the text as the
/// replacements after it left it, on character boundaries. It holds whenever the blocks
/// do not overlap (`lemma_disjoint_match_edit_is_supported`), so for every edit that
/// replaces a single match; overlapping blocks of a `replace_all` edit can break it.
pub open spec fn edit_supported(original: Seq<char>, old: Seq<char>, new: Seq<char>, replace_all: bool) -> bool {
    let starts = fuzzy_starts(original, old, replace_all);
    (old.len() > 0 && old != new && occurrences(original, old, 0).len() == 0 && starts.len() > 0
        && !(starts.len() > 1 && !replace_all)) ==> fuzzy_bytes(original, old, new, starts) is Some
}

/// A unified line diff from `original` to `updated` with `radius` lines of context, as
/// the `similar` crate renders it.
pub uninterp spec fn unified_line_diff(original: Seq<char>, updated: Seq<char>, radius: nat) -> Seq<char>;

/// `similar::TextDiff::from_lines(..).unified_diff().context_radius(radius).to_string()`.
/// The contract only names the result: `from_lines` sets no diff deadline, so the text
/// it renders depends on its arguments alone. Grouping the hunks doubles the radius, so
/// radii above half of `usize::MAX` are left out.
#[verifier::external_body]
fn unified_diff(original: &str, updated: &str, radius: usize) -> (diff: String)
    requires
        radius <= usize::MAX / 2,
    ensures
        diff@ == unified_line_diff(original@, updated@, radius as nat),
{
    similar::TextDiff::from_lines(original, updated).unified_diff().context_radius(radius).to_string()
}


/// Appends `src[lo..hi]` to `dst`.
fn push_range<T: Copy>(dst: &mut Vec<T>, src: &[T], lo: usize, hi: usize)
    requires
        lo <= hi <= src@.len(),
    ensures
        final(dst)@ == old(dst)@ + src@.subrange(lo as int, hi as int),
{
    let mut i = lo;
    while i < hi
        invariant
            lo <= i <= hi <= src@.len(),
            dst@ == old(dst)@ + src@.subrange(lo as int, i as int),
        decreases hi - i,
    {
        dst.push(src[i]);
        i = i + 1;
        assert(dst@ =~= old(dst)@ + src@.subrange(lo as int, i as int));
    }
}

/// Whether `p` occurs in `h` at position `i`.
fn occurs_at_exec(h: &[char], p: &[char], i: usize) -> (found: bool)
    requires
        i + p@.len() <= h@.len(),
    ensures
        found == occurs_at(h@, p@, i as int),
{
    let mut k: usize = 0;
    let hlen = h.len();
    while k < p.len()
        invariant
            hlen == h@.len(),
            i + p@.len() <= h@.len(),
            k <= p@.len(),
            forall|j: int| 0 <= j < k ==> h@[i + j] == p@[j],
        decreases p@.len() - k,
    {
        assert(i + k < h@.len());
        if h[i + k] != p[k] {
            assert(h@.subrange(i as int, i + p@.len())[k as int] != p@[k as int]);
            return false;
        }
        k = k + 1;
    }
    assert(h@.subrange(i as int, i + p@.len()) =~= p@);
    true
}

proof fn lemma_first_occurrence(h: Seq<char>, p: Seq<char>, from: int)
    requires
        from >= 0,
    ensures
        first_occurrence(h, p, from) matches Some(i) ==> from <= i && occurs_at(h, p, i),
    decreases h.len() + 1 - from,
{
    if from + p.len() <= h.len() && !occurs_at(h, p, from) {
        lemma_first_occurrence(h, p, from + 1);
    }
}

/// The first position at or after `from` where `p` occurs in `h`.
fn find_from(h: &[char], p: &[char], from: usize) -> (found: Option<usize>)
    requires
        p@.len() > 0,
    ensures
        match found {
            Some(i) => first_occurrence(h@, p@, from as int) == Some(i as int),
            None => first_occurrence(h@, p@, from as int) is None,
        },
{
    if from > h.len() || p.len() > h.len() - from {
        return None;
    }
    let mut i = from;
    while i <= h.len() - p.len()
        invariant
            from <= i,
            p@.len() <= h@.len(),
            0 < p@.len() <= h@.len(),
            first_occurrence(h@, p@, from as int) == first_occurrence(h@, p@, i as int),
        decreases h@.len() - i,
    {
        if occurs_at_exec(h, p, i) {
            return Some(i);
        }
        i = i + 1;
    }
    None
}

/// Counts the non-overlapping occurrences of a non-empty `p` in `h`, and rewrites `h`
/// with each of them replaced by `r`.
fn replace_occurrences(h: &[char], p: &[char], r: &[char]) -> (res: (usize, Vec<char>))
    requires
        p@.len() > 0,
    ensures
        res.0 == occurrences(h@, p@, 0).len(),
        res.1@ == replace_all_from(h@, p@, r@, 0),
{
    let mut out: Vec<char> = Vec::new();
    let mut count: usize = 0;
    let mut pos: usize = 0;
    let hlen = h.len();
    loop
        invariant
            p@.len() > 0,
            hlen == h@.len(),
            pos <= h@.len(),
            count <= pos,
            count + occurrences(h@, p@, pos as int).len() == occurrences(h@, p@, 0).len(),
            out@ + replace_all_from(h@, p@, r@, pos as int) == replace_all_from(h@, p@, r@, 0),
        decreases h@.len() - pos,
    {
        match find_from(h, p, pos) {
            None => {
                push_range(&mut out, h, pos, h.len());
                assert(h@.subrange(pos as int, h@.len() as int) == h@.skip(pos as int));
                return (count, out);
            },
            Some(i) => {
                proof {
                    lemma_first_occurrence(h@, p@, pos as int);
                }
                let ghost before = out@;
                push_range(&mut out, h, pos, i);
                let mut k: usize = 0;
                while k < r.len()
                    invariant
                        k <= r@.len(),
                        out@ == before + h@.subrange(pos as int, i as int) + r@.subrange(0, k as int),
                    decreases r@.len() - k,
                {
                    out.push(r[k]);
                    k = k + 1;
                    assert(out@ =~= before + h@.subrange(pos as int, i as int) + r@.subrange(
                        0,
                        k as int,
                    ));
                }
                assert(r@.subrange(0, r@.len() as int) =~= r@);
                assert(out@ =~= before + (h@.subrange(pos as int, i as int) + r@));
                count = count + 1;
                pos = i + p.len();
            },
        }
    }
}

/// Block starts of the whitespace-tolerant search: all of them, or the first two when
/// only one match may be replaced.
fn find_block_starts(lines: &[Vec<char>], pattern: &[Vec<char>], replace_all: bool) -> (starts: Vec<
    usize,
>)
    requires
        pattern@.len() > 0,
    ensures
        ({
            let all = block_starts(line_views(lines@), line_views(pattern@), 0);
            usizes_view(starts@) == if !replace_all && all.len() > 2 {
                all.take(2)
            } else {
                all
            }
        }),
{
    let ghost lv = line_views(lines@);
    let ghost pv = line_views(pattern@);
    let mut starts: Vec<usize> = Vec::new();
    let mut from: usize = 0;
    let nlines = lines.len();
    loop
        invariant
            pattern@.len() > 0,
            nlines == lines@.len(),
            lv == line_views(lines@),
            pv == line_views(pattern@),
            pv.len() == pattern@.len(),
            lv.len() == lines@.len(),
            from <= lines@.len(),
            block_starts(lv, pv, 0) == usizes_view(starts@) + block_starts(
                lv,
                pv,
                from as int,
            ),
            !replace_all ==> starts@.len() <= 1,
        decreases lines@.len() - from,
    {
        let ghost gs = usizes_view(starts@);
        match seek_sequence(lines, pattern, from) {
            None => {
                assert(block_starts(lv, pv, from as int) =~= Seq::<int>::empty());
                assert(block_starts(lv, pv, 0) =~= gs);
                return starts;
            },
            Some(index) => {
                proof {
                    lemma_seek_range(lv, pv, from as int);
                }
                let ghost rest = block_starts(lv, pv, index + 1);
                assert(block_starts(lv, pv, from as int) == seq![index as int] + rest);
                starts.push(index);
                from = index + 1;
                let ghost gs2 = usizes_view(starts@);
                assert(gs2 =~= gs.push(index as int));
                assert(block_starts(lv, pv, 0) =~= gs2 + rest);
                if starts.len() > 1 && !replace_all {
                    assert((gs2 + rest).take(2) =~= gs2);
                    return starts;
                }
            },
        }
    }
}


/// The integers held by a sequence of indices.
pub open spec fn usizes_view(v: Seq<usize>) -> Seq<int> {
    v.map_values(|x: usize| x as int)
}

proof fn lemma_newline_byte_valid()
    ensures
        valid_utf8(seq![10u8]),
{
    let b = seq![10u8];
    assert(10u8 & 0x7Fu8 == 10u8) by (bit_vector);
    assert(pop_first_scalar(b) =~= Seq::<u8>::empty());
    reveal_with_fuel(valid_utf8, 2);
}

/// The replacement bytes for a block of whole lines (see `adjust_replacement`).
fn adjusted_replacement(r: &[u8], block_ends_with_newline: bool) -> (out: Vec<u8>)
    requires
        valid_utf8(r@),
    ensures
        out@ == adjust_replacement(r@, block_ends_with_newline),
        valid_utf8(out@),
{
    let mut out: Vec<u8> = Vec::new();
    let r_nl = r.len() > 0 && r[r.len() - 1] == 10u8;
    if !block_ends_with_newline && r_nl {
        push_range(&mut out, r, 0, r.len() - 1);
        assert(r@.subrange(0, r@.len() - 1) =~= r@.drop_last());
        proof {
            let n = r@.len() - 1;
            is_char_boundary_iff_not_is_continuation_byte(r@, n);
            valid_utf8_split(r@, n);
        }
    } else {
        push_range(&mut out, r, 0, r.len());
        assert(r@.subrange(0, r@.len() as int) =~= r@);
        if block_ends_with_newline && !r_nl {
            out.push(10u8);
            proof {
                lemma_newline_byte_valid();
                valid_utf8_concat(r@, seq![10u8]);
                assert(out@ =~= r@ + seq![10u8]);
            }
        }
    }
    out
}

/// Whether byte `i` of valid UTF-8 text starts a character (or ends the text).
fn is_boundary(u: &[u8], i: usize) -> (b: bool)
    requires
        valid_utf8(u@),
    ensures
        b == is_char_boundary(u@, i as int),
{
    if i == 0 {
        true
    } else if i > u.len() {
        false
    } else if i == u.len() {
        proof {
            is_char_boundary_start_end_of_seq(u@);
        }
        true
    } else {
        proof {
            is_char_boundary_iff_not_is_continuation_byte(u@, i as int);
        }
        !(0x80u8 <= u[i] && u[i] <= 0xbfu8)
    }
}

/// Replaces the matched blocks, the last start first (see `apply_from`); nothing when a
/// step cannot be made.
fn try_apply_block_edits(
    orig: &[u8],
    bounds: &[usize],
    plen: usize,
    r: &[u8],
    starts: &[usize],
) -> (out: Option<Vec<u8>>)
    requires
        valid_utf8(orig@),
        valid_utf8(r@),
    ensures
        match apply_from(orig@, orig@, usizes_view(bounds@), plen as int, r@, usizes_view(starts@)) {
            Some(b) => out matches Some(o) && o@ == b && valid_utf8(b),
            None => out is None,
        },
{
    let ghost bv = usizes_view(bounds@);
    let ghost sv = usizes_view(starts@);
    let mut u: Vec<u8> = Vec::new();
    push_range(&mut u, orig, 0, orig.len());
    assert(orig@.subrange(0, orig@.len() as int) =~= orig@);
    let nb = bounds.len();
    let mut j = starts.len();
    assert(sv.take(j as int) =~= sv);
    while j > 0
        invariant
            bv == usizes_view(bounds@),
            sv == usizes_view(starts@),
            nb == bounds@.len(),
            j <= starts@.len(),
            valid_utf8(orig@),
            valid_utf8(r@),
            valid_utf8(u@),
            apply_from(orig@, orig@, bv, plen as int, r@, sv) == apply_from(
                u@,
                orig@,
                bv,
                plen as int,
                r@,
                sv.take(j as int),
            ),
        decreases j,
    {
        let ghost tj = sv.take(j as int);
        assert(tj.last() == starts@[j - 1] as int);
        assert(tj.drop_last() =~= sv.take(j - 1));
        let s = starts[j - 1];
        if !(s < nb && plen < nb - s) {
            return None;
        }
        let lo = bounds[s];
        let hi = bounds[s + plen];
        assert(bv[s as int] == lo as int && bv[s + plen] == hi as int);
        if !(lo <= hi && hi <= orig.len() && is_boundary(orig, lo) && is_boundary(orig, hi) && hi
            <= u.len() && is_boundary(u.as_slice(), lo) && is_boundary(u.as_slice(), hi)) {
            return None;
        }
        let block_nl = lo < hi && orig[hi - 1] == 10u8;
        let adj = adjusted_replacement(r, block_nl);
        let mut next: Vec<u8> = Vec::new();
        push_range(&mut next, u.as_slice(), 0, lo);
        push_range(&mut next, adj.as_slice(), 0, adj.len());
        push_range(&mut next, u.as_slice(), hi, u.len());
        proof {
            valid_utf8_split(u@, lo as int);
            valid_utf8_split(u@, hi as int);
            assert(adj@.subrange(0, adj@.len() as int) =~= adj@);
            assert(u@.subrange(0, lo as int) =~= u@.take(lo as int));
            assert(u@.subrange(hi as int, u@.len() as int) =~= u@.skip(hi as int));
            valid_utf8_concat(u@.take(lo as int), adj@);
            valid_utf8_concat(u@.take(lo as int) + adj@, u@.skip(hi as int));
            assert(next@ =~= u@.take(lo as int) + adj@ + u@.skip(hi as int));
        }
        u = next;
        j = j - 1;
    }
    assert(sv.take(0) =~= Seq::<int>::empty());
    Some(u)
}

/// Whether a result of `plan_edit` is what `edit_spec` decides, with the diff rendered
/// from the original to the updated text.
pub open spec fn plan_agrees(
    original: Seq<char>,
    result: Result<EditPlan, EditError>,
    expected: Result<EditResultView, EditError>,
) -> bool {
    match (result, expected) {
        (Ok(plan), Ok(view)) => {
            &&& plan.updated@ == view.updated
            &&& plan.replacements == view.replacements
            &&& plan.match_kind == view.match_kind
            &&& plan.message@ == view.message
            &&& plan.unified_diff@ == unified_line_diff(original, view.updated, DIFF_CONTEXT_LINES as nat)
        },
        (Err(e), Err(f)) => e == f,
        _ => false,
    }
}

/// Assembles a plan, rendering the diff from `original` to `updated`.
fn plan_from_updated(
    original: &str,
    updated: String,
    replacements: usize,
    match_kind: EditMatch,
    message: String,
) -> (plan: EditPlan)
    ensures
        plan.updated@ == updated@,
        plan.replacements == replacements,
        plan.match_kind == match_kind,
        plan.message@ == message@,
        plan.unified_diff@ == unified_line_diff(original@, updated@, DIFF_CONTEXT_LINES as nat),
{
    let unified_diff = unified_diff(original, updated.as_str(), DIFF_CONTEXT_LINES);
    EditPlan { updated, replacements, match_kind, unified_diff, message }
}

/// Non-empty text has at least one line, one fewer than its line bounds.
proof fn lemma_split_len(s: Seq<char>)
    ensures
        split_lines_spec(s).len() == line_bounds(s).len() - 1,
        s.len() > 0 ==> split_lines_spec(s).len() >= 1,
{
    lemma_line_bounds(s);
    if s.len() > 0 {
        assert(line_bounds(s)[0] != line_bounds(s).last());
    }
}

/// Plans a single-file replacement without performing any filesystem I/O.
///
/// An exact occurrence of `old_string` is replaced when it is unique, or every one of
/// them when `replace_all` is set. Without any exact occurrence, the lines of
/// `old_string` are matched as a block against the lines of the file, tolerating
/// whitespace and typographic punctuation differences, and each matched block of whole
/// lines is replaced. A `replace_all` edit whose matched blocks overlap so that one can no
/// longer be spliced in is outside what this accepts (`supports_edit` tells).
pub fn plan_edit(original: &str, request: &EditRequest) -> (result: Result<EditPlan, EditError>)
    requires
        request.replace_all ==> edit_supported(
            original@,
            request.old_string@,
            request.new_string@,
            request.replace_all,
        ),
    ensures
        plan_agrees(
            original@,
            result,
            edit_spec(original@, request.old_string@, request.new_string@, request.replace_all),
        ),
{
    proof {
        if !request.replace_all {
            lemma_single_match_edit_is_supported(
                original@,
                request.old_string@,
                request.new_string@,
            );
        }
    }
    let h = chars_of(original);
    let p = chars_of(request.old_string.as_str());
    let r = chars_of(request.new_string.as_str());
    if p.len() == 0 {
        return Err(EditError::EmptyOldString);
    }
    if chars_equal(p.as_slice(), r.as_slice()) {
        return Err(EditError::IdenticalStrings);
    }
    let (exact, replaced) = replace_occurrences(h.as_slice(), p.as_slice(), r.as_slice());
    if exact == 1 {
        let mut message = String::new();
        message.append("The file has been updated.");
        let updated = string_from_chars(replaced.as_slice());
        return Ok(plan_from_updated(original, updated, 1, EditMatch::Exact, message));
    }
    if exact > 1 {
        if !request.replace_all {
            return Err(EditError::AmbiguousExact { matches: exact });
        }
        let mut message = String::new();
        message.append("The file has been updated (");
        push_decimal(&mut message, exact as u64);
        message.append(" occurrences replaced).");
        let updated = string_from_chars(replaced.as_slice());
        return Ok(plan_from_updated(original, updated, exact, EditMatch::Exact, message));
    }
    let lines = split_lines_chars(h.as_slice());
    let pattern = split_lines_chars(p.as_slice());
    let ghost lv = line_views(lines@);
    let ghost pv = line_views(pattern@);
    proof {
        lemma_split_len(p@);
        lemma_block_starts(lv, pv, 0);
        assert(lv.len() == lines@.len());
        assert(pv.len() == pattern@.len());
    }
    let starts = find_block_starts(lines.as_slice(), pattern.as_slice(), request.replace_all);
    assert(usizes_view(starts@) == fuzzy_starts(original@, request.old_string@, request.replace_all));
    if starts.len() == 0 {
        return Err(EditError::NotFound);
    }
    if starts.len() > 1 && !request.replace_all {
        return Err(EditError::AmbiguousFuzzy { matches: starts.len() });
    }
    let applied = fuzzy_replace(original, request.new_string.as_str(), pattern.len(), starts.as_slice());
    let updated_bytes = match applied {
        Some(bytes) => bytes,
        None => {
            assert(false);
            return Err(EditError::NotFound);
        },
    };
    let updated = match string_from_utf8(updated_bytes) {
        Some(text) => text,
        None => {
            assert(false);
            return Err(EditError::NotFound);
        },
    };
    let mut message = String::new();
    message.append("The file has been updated (");
    push_decimal(&mut message, starts.len() as u64);
    message.append(" occurrence(s) replaced).");
    message.append(FUZZY_MATCH_NOTE);
    Ok(plan_from_updated(original, updated, starts.len(), EditMatch::Fuzzy, message))
}

/// The whitespace-tolerant replacement of the blocks at `starts`, each `plen` lines
/// long, by `new`; nothing when a block's byte range cannot be spliced in.
fn fuzzy_replace(original: &str, new: &str, plen: usize, starts: &[usize]) -> (out: Option<Vec<u8>>)
    ensures
        ({
            let ob = encode_utf8(original@);
            match apply_from(ob, ob, byte_line_bounds(ob), plen as int, encode_utf8(new@), usizes_view(starts@)) {
                Some(b) => out matches Some(o) && o@ == b && valid_utf8(b),
                None => out is None,
            }
        }),
{
    let bounds = line_offsets(original);
    let ghost ob = encode_utf8(original@);
    assert(usizes_view(bounds@) =~= byte_line_bounds(ob));
    proof {
        encode_utf8_valid_utf8(original@);
        encode_utf8_valid_utf8(new@);
    }
    try_apply_block_edits(original.as_bytes(), bounds.as_slice(), plen, new.as_bytes(), starts)
}

/// Whether `plan_edit` can make the edit it decides on (see `edit_supported`): always
/// for an edit that replaces a single match.
pub fn supports_edit(original: &str, request: &EditRequest) -> (ok: bool)
    ensures
        ok == edit_supported(
            original@,
            request.old_string@,
            request.new_string@,
            request.replace_all,
        ),
        !request.replace_all ==> ok,
{
    if !request.replace_all {
        proof {
            lemma_single_match_edit_is_supported(
                original@,
                request.old_string@,
                request.new_string@,
            );
        }
        return true;
    }
    let h = chars_of(original);
    let p = chars_of(request.old_string.as_str());
    let r = chars_of(request.new_string.as_str());
    if p.len() == 0 || chars_equal(p.as_slice(), r.as_slice()) {
        return true;
    }
    if let Some(i) = find_from(h.as_slice(), p.as_slice(), 0) {
        proof {
            lemma_first_occurrence(h@, p@, 0);
        }
        assert(occurrences(h@, p@, 0).len() > 0);
        return true;
    }
    proof {
        lemma_first_occurrence(h@, p@, 0);
    }
    let lines = split_lines_chars(h.as_slice());
    let pattern = split_lines_chars(p.as_slice());
    let ghost lv = line_views(lines@);
    let ghost pv = line_views(pattern@);
    proof {
        lemma_split_len(p@);
        lemma_block_starts(lv, pv, 0);
        assert(lv.len() == lines@.len());
        assert(pv.len() == pattern@.len());
    }
    let starts = find_block_starts(lines.as_slice(), pattern.as_slice(), request.replace_all);
    assert(usizes_view(starts@) == fuzzy_starts(original@, request.old_string@, request.replace_all));
    if starts.len() == 0 || (starts.len() > 1 && !request.replace_all) {
        return true;
    }
    fuzzy_replace(original, request.new_string.as_str(), pattern.len(), starts.as_slice()).is_some()
}

/// The lines of a text: split at `\n`, without the empty piece after a final newline.
pub fn split_lines(contents: &str) -> (lines: Vec<String>)
    ensures
        lines@.len() == split_lines_spec(contents@).len(),
        forall|k: int| 0 <= k < lines@.len() ==> #[trigger] lines@[k]@ == split_lines_spec(contents@)[k],
{
    let chars = chars_of(contents);
    let parts = split_lines_chars(chars.as_slice());
    assert(line_views(parts@).len() == parts@.len());
    let mut lines: Vec<String> = Vec::new();
    let mut k: usize = 0;
    while k < parts.len()
        invariant
            k <= parts@.len(),
            line_views(parts@) == split_lines_spec(contents@),
            lines@.len() == k,
            forall|j: int| 0 <= j < k ==> #[trigger] lines@[j]@ == split_lines_spec(contents@)[j],
        decreases parts@.len() - k,
    {
        assert(line_views(parts@)[k as int] == parts@[k as int]@);
        lines.push(string_from_chars(parts[k].as_slice()));
        k = k + 1;
    }
    lines
}

/// Bytes read one by one as characters (each byte its own code point).
pub open spec fn bytes_as_chars(bytes: Seq<u8>) -> Seq<char> {
    bytes.map_values(|b: u8| b as char)
}

/// Line bounds of a text measured in bytes: a line ends after each `\n` byte.
pub open spec fn byte_line_bounds(bytes: Seq<u8>) -> Seq<int> {
    line_bounds(bytes_as_chars(bytes))
}

/// The number of `\n` characters in a text.
pub open spec fn newline_count(s: Seq<char>) -> nat
    decreases s.len(),
{
    if s.len() == 0 {
        0
    } else {
        newline_count(s.drop_last()) + if s.last() == '\n' {
            1nat
        } else {
            0nat
        }
    }
}

proof fn lemma_newline_ends_count(s: Seq<char>, n: int)
    requires
        0 <= n <= s.len(),
    ensures
        newline_ends(s, n).len() == newline_count(s.take(n)),
    decreases n,
{
    if n > 0 {
        lemma_newline_ends_count(s, n - 1);
        assert(s.take(n).drop_last() =~= s.take(n - 1));
    }
}

proof fn lemma_newline_count_concat(a: Seq<char>, b: Seq<char>)
    ensures
        newline_count(a + b) == newline_count(a) + newline_count(b),
    decreases b.len(),
{
    if b.len() == 0 {
        assert(a + b =~= a);
    } else {
        lemma_newline_count_concat(a, b.drop_last());
        assert((a + b).drop_last() =~= a + b.drop_last());
    }
}

/// The UTF-8 encoding of one character holds a newline byte exactly when the character
/// is a newline, and then only that byte.
proof fn lemma_scalar_newlines(c: char)
    ensures
        encode_scalar(c as u32).len() > 0,
        newline_count(bytes_as_chars(encode_scalar(c as u32))) == (if c == '\n' {
            1nat
        } else {
            0nat
        }),
        (encode_scalar(c as u32).last() == 10u8) == (c == '\n'),
{
    let s = c as u32;
    char_is_scalar(c);
    let e = encode_scalar(s);
    let bc = bytes_as_chars(e);
    reveal_with_fuel(newline_count, 5);
    if has_width_1_encoding(s) {
        assert(s <= 0x7f ==> (s & 0x7f) == s) by (bit_vector);
        assert(e =~= seq![s as u8]);
        assert(bc.drop_last() =~= Seq::<char>::empty());
    } else {
        assert(forall|x: u8| #![trigger (0x80u8 | x)] (0x80u8 | x) >= 0x80u8) by (bit_vector);
        assert(forall|x: u8| #![trigger (0xC0u8 | x)] (0xC0u8 | x) >= 0x80u8) by (bit_vector);
        assert(forall|x: u8| #![trigger (0xE0u8 | x)] (0xE0u8 | x) >= 0x80u8) by (bit_vector);
        assert(forall|x: u8| #![trigger (0xF0u8 | x)] (0xF0u8 | x) >= 0x80u8) by (bit_vector);
        assert(forall|k: int| 0 <= k < e.len() ==> e[k] >= 0x80u8);
        assert(forall|k: int| 0 <= k < bc.len() ==> bc[k] != '\n');
        if has_width_2_encoding(s) {
            assert(bc.drop_last().drop_last() =~= Seq::<char>::empty());
        } else if has_width_3_encoding(s) {
            assert(bc.drop_last().drop_last().drop_last() =~= Seq::<char>::empty());
        } else {
            assert(bc.drop_last().drop_last().drop_last().drop_last() =~= Seq::<char>::empty());
        }
    }
}

/// Encoding keeps the newlines of a text: as many newline bytes as newline characters,
/// a non-empty encoding exactly for a non-empty text, ending with a newline byte exactly
/// when the text ends with a newline.
proof fn lemma_encoded_newlines(chars: Seq<char>)
    ensures
        newline_count(bytes_as_chars(encode_utf8(chars))) == newline_count(chars),
        (encode_utf8(chars).len() == 0) == (chars.len() == 0),
        chars.len() > 0 ==> ((encode_utf8(chars).last() == 10u8) == (chars.last() == '\n')),
    decreases chars.len(),
{
    if chars.len() > 0 {
        let init = chars.drop_last();
        let c = chars.last();
        lemma_encoded_newlines(init);
        assert(chars =~= init + seq![c]);
        lemma_encode_concat(init, seq![c]);
        assert(encode_utf8(seq![c]) =~= encode_scalar(c as u32)) by {
            reveal_with_fuel(encode_utf8, 2);
            assert(seq![c].drop_first() =~= Seq::<char>::empty());
        }
        lemma_scalar_newlines(c);
        let e = encode_utf8(init);
        let f = encode_scalar(c as u32);
        assert(bytes_as_chars(e + f) =~= bytes_as_chars(e) + bytes_as_chars(f));
        lemma_newline_count_concat(bytes_as_chars(e), bytes_as_chars(f));
        lemma_newline_count_concat(init, seq![c]);
        assert(newline_count(seq![c]) == if c == '\n' { 1nat } else { 0nat }) by {
            reveal_with_fuel(newline_count, 2);
            assert(seq![c].drop_last() =~= Seq::<char>::empty());
        }
    }
}

/// Where the text `s` is cut at character `k`, in bytes of its UTF-8 encoding.
pub open spec fn byte_offset(s: Seq<char>, k: int) -> int {
    encode_utf8(s.take(k)).len() as int
}

proof fn lemma_newline_ends_prefix(x: Seq<char>, y: Seq<char>, n: int)
    requires
        0 <= n <= x.len(),
    ensures
        newline_ends(x + y, n) == newline_ends(x, n),
    decreases n,
{
    if n > 0 {
        lemma_newline_ends_prefix(x, y, n - 1);
        assert((x + y)[n - 1] == x[n - 1]);
    }
}

proof fn lemma_newline_ends_skip(x: Seq<char>, p: int, q: int)
    requires
        0 <= p <= q <= x.len(),
        forall|j: int| p <= j < q ==> x[j] != '\n',
    ensures
        newline_ends(x, q) == newline_ends(x, p),
    decreases q - p,
{
    if q > p {
        lemma_newline_ends_skip(x, p, q - 1);
    }
}

/// Every newline is the end of a segment.
proof fn lemma_newline_ends_complete(s: Seq<char>, n: int, j: int)
    requires
        0 <= j < n <= s.len(),
        s[j] == '\n',
    ensures
        exists|m: int| 0 <= m < newline_ends(s, n).len() && #[trigger] newline_ends(s, n)[m] == j + 1,
    decreases n,
{
    if j == n - 1 {
        let ne = newline_ends(s, n);
        assert(ne.last() == n);
        assert(ne[ne.len() - 1] == j + 1);
    } else {
        lemma_newline_ends_complete(s, n - 1, j);
        let m = choose|m: int| 0 <= m < newline_ends(s, n - 1).len() && #[trigger] newline_ends(s, n - 1)[m] == j + 1;
        assert(newline_ends(s, n)[m] == j + 1);
    }
}

/// The newline ends of the encoded text are the byte offsets of those of the text.
proof fn lemma_encoded_newline_ends(s: Seq<char>)
    ensures
        newline_ends(bytes_as_chars(encode_utf8(s)), encode_utf8(s).len() as int).len()
            == newline_ends(s, s.len() as int).len(),
        forall|m: int|
            0 <= m < newline_ends(s, s.len() as int).len() ==> #[trigger] newline_ends(
                bytes_as_chars(encode_utf8(s)),
                encode_utf8(s).len() as int,
            )[m] == byte_offset(s, newline_ends(s, s.len() as int)[m]),
    decreases s.len(),
{
    if s.len() > 0 {
        let init = s.drop_last();
        let c = s.last();
        lemma_encoded_newline_ends(init);
        assert(s =~= init + seq![c]);
        lemma_encode_concat(init, seq![c]);
        assert(encode_utf8(seq![c]) =~= encode_scalar(c as u32)) by {
            reveal_with_fuel(encode_utf8, 2);
            assert(seq![c].drop_first() =~= Seq::<char>::empty());
        }
        lemma_scalar_newlines(c);
        let e0 = encode_utf8(init);
        let sc = encode_scalar(c as u32);
        let z = bytes_as_chars(e0 + sc);
        assert(z =~= bytes_as_chars(e0) + bytes_as_chars(sc));
        let l0 = e0.len() as int;
        lemma_newline_ends_prefix(bytes_as_chars(e0), bytes_as_chars(sc), l0);
        lemma_newline_ends_prefix(init, seq![c], init.len() as int);
        let ne0 = newline_ends(init, init.len() as int);
        assert forall|m: int| 0 <= m < ne0.len() implies byte_offset(s, #[trigger] ne0[m])
            == byte_offset(init, ne0[m]) by {
            lemma_newline_ends(init, init.len() as int);
            assert(s.take(ne0[m]) =~= init.take(ne0[m]));
        }
        assert(s.take(s.len() as int) =~= s);
        if c == '\n' {
            assert(sc =~= seq![10u8]) by {
                assert(sc.len() == 1) by {
                    char_is_scalar(c);
                }
            }
            assert(z[l0] == '\n');
        } else {
            assert forall|j: int| l0 <= j < l0 + sc.len() implies z[j] != '\n' by {
                assert(z[j] == bytes_as_chars(sc)[j - l0]);
                if bytes_as_chars(sc)[j - l0] == '\n' {
                    assert(newline_count(bytes_as_chars(sc)) > 0) by {
                        lemma_newline_count_positive(bytes_as_chars(sc), j - l0);
                    }
                }
            }
            lemma_newline_ends_skip(z, l0, l0 + sc.len());
        }
    }
}

proof fn lemma_newline_count_positive(x: Seq<char>, j: int)
    requires
        0 <= j < x.len(),
        x[j] == '\n',
    ensures
        newline_count(x) > 0,
    decreases x.len(),
{
    if j < x.len() - 1 {
        lemma_newline_count_positive(x.drop_last(), j);
    }
}

/// The text and its UTF-8 encoding have the same number of line bounds.
proof fn lemma_byte_line_bounds_len(chars: Seq<char>)
    ensures
        byte_line_bounds(encode_utf8(chars)).len() == line_bounds(chars).len(),
{
    let ob = encode_utf8(chars);
    let bc = bytes_as_chars(ob);
    lemma_encoded_newlines(chars);
    lemma_newline_ends_count(bc, bc.len() as int);
    assert(bc.take(bc.len() as int) =~= bc);
    lemma_newline_ends_count(chars, chars.len() as int);
    assert(chars.take(chars.len() as int) =~= chars);
    if ob.len() > 0 {
        assert(bc.last() == ob.last() as char);
    }
}

/// The line bounds of the encoded text are the byte offsets of the line bounds of the
/// text.
proof fn lemma_byte_line_bounds_offsets(s: Seq<char>)
    ensures
        byte_line_bounds(encode_utf8(s)).len() == line_bounds(s).len(),
        forall|k: int|
            0 <= k < line_bounds(s).len() ==> #[trigger] byte_line_bounds(encode_utf8(s))[k]
                == byte_offset(s, line_bounds(s)[k]),
{
    let e = encode_utf8(s);
    let bc = bytes_as_chars(e);
    lemma_byte_line_bounds_len(s);
    lemma_encoded_newline_ends(s);
    lemma_encoded_newlines(s);
    let nb = newline_ends(bc, e.len() as int);
    let nc = newline_ends(s, s.len() as int);
    let b = line_bounds(s);
    let bb = byte_line_bounds(e);
    assert(s.take(0) =~= Seq::<char>::empty());
    assert(s.take(s.len() as int) =~= s);
    assert(encode_utf8(Seq::<char>::empty()) =~= Seq::<u8>::empty());
    if e.len() > 0 {
        assert(bc.last() == e.last() as char);
    }
    assert forall|k: int| 0 <= k < b.len() implies #[trigger] bb[k] == byte_offset(s, b[k]) by {
        if 0 < k && k <= nc.len() {
            assert(bb[k] == nb[k - 1]);
            assert(b[k] == nc[k - 1]);
        }
    }
}

/// The byte offsets of `line_offsets` frame the lines of `split_lines`: there is one more
/// offset than lines, they start at zero, increase strictly and end at the text's byte
/// length; no line holds a newline; and the bytes between two consecutive offsets are
/// the line, followed by its newline unless it is a last line without one.
pub proof fn lemma_line_offsets_frame_lines(s: Seq<char>)
    ensures
        ({
            let lines = split_lines_spec(s);
            let e = encode_utf8(s);
            let o = byte_line_bounds(e);
            &&& o.len() == lines.len() + 1
            &&& o[0] == 0
            &&& o.last() == e.len()
            &&& forall|i: int, j: int| 0 <= i < j < o.len() ==> #[trigger] o[i] < #[trigger] o[j]
            &&& forall|i: int, j: int|
                0 <= i < lines.len() && 0 <= j < lines[i].len() ==> #[trigger] lines[i][j] != '\n'
            &&& forall|i: int|
                0 <= i < lines.len() ==> e.subrange(#[trigger] o[i], o[i + 1]) == encode_utf8(
                    lines[i] + if i + 1 < lines.len() || (s.len() > 0 && s.last() == '\n') {
                        seq!['\n']
                    } else {
                        seq![]
                    },
                )
        }),
{
    let lines = split_lines_spec(s);
    let e = encode_utf8(s);
    let o = byte_line_bounds(e);
    let b = line_bounds(s);
    lemma_split_len(s);
    lemma_line_bounds(s);
    lemma_line_bounds(bytes_as_chars(e));
    lemma_byte_line_bounds_offsets(s);
    lemma_newline_ends(s, s.len() as int);
    assert forall|i: int, j: int|
        0 <= i < lines.len() && 0 <= j < lines[i].len() implies #[trigger] lines[i][j] != '\n' by {
        let c = b[i] + j;
        assert(lines[i][j] == s[c]);
        if s[c] == '\n' {
            lemma_newline_ends_complete(s, s.len() as int, c);
            let ne = newline_ends(s, s.len() as int);
            let m = choose|m: int| 0 <= m < ne.len() && #[trigger] ne[m] == c + 1;
            assert(b[m + 1] == c + 1);
            assert(b[i] < c + 1 < b[i + 1]);
            if m + 1 <= i {
                assert(b[m + 1] <= b[i]);
            } else if m + 1 >= i + 1 {
                assert(b[i + 1] <= b[m + 1]);
            }
        }
    }
    assert forall|i: int| 0 <= i < lines.len() implies e.subrange(#[trigger] o[i], o[i + 1])
        == encode_utf8(
        lines[i] + if i + 1 < lines.len() || (s.len() > 0 && s.last() == '\n') {
            seq!['\n']
        } else {
            seq![]
        },
    ) by {
        let lo = b[i];
        let hi = b[i + 1];
        let seg = s.subrange(lo, hi);
        assert(s.take(hi) =~= s.take(lo) + seg);
        lemma_encode_concat(s.take(lo), seg);
        assert(s =~= s.take(hi) + s.skip(hi));
        lemma_encode_concat(s.take(hi), s.skip(hi));
        assert(e.subrange(o[i], o[i + 1]) =~= encode_utf8(seg));
        let nl = s[hi - 1] == '\n';
        assert(nl == (i + 1 < lines.len() || (s.len() > 0 && s.last() == '\n')));
        if nl {
            assert(seg =~= lines[i] + seq!['\n']);
        } else {
            assert(seg =~= lines[i] + Seq::<char>::empty());
        }
    }
}

/// In valid UTF-8, the byte after a character boundary holding an ASCII byte is a
/// boundary too.
proof fn lemma_boundary_after_ascii(b: Seq<u8>, j: int)
    requires
        valid_utf8(b),
        0 <= j < b.len(),
        is_char_boundary(b, j),
        b[j] < 0x80u8,
    ensures
        is_char_boundary(b, j + 1),
    decreases b.len(),
{
    let lf = length_of_first_scalar(b);
    let p = pop_first_scalar(b);
    reveal_with_fuel(is_char_boundary, 2);
    if j > 0 {
        assert(p[j - lf] == b[j]);
        lemma_boundary_after_ascii(p, j - lf);
    }
}

/// Every line bound of an encoded text falls on a character boundary.
proof fn lemma_byte_bounds_are_boundaries(chars: Seq<char>)
    ensures
        forall|k: int|
            0 <= k < byte_line_bounds(encode_utf8(chars)).len() ==> is_char_boundary(
                encode_utf8(chars),
                #[trigger] byte_line_bounds(encode_utf8(chars))[k],
            ),
{
    let ob = encode_utf8(chars);
    let bc = bytes_as_chars(ob);
    let b = byte_line_bounds(ob);
    encode_utf8_valid_utf8(chars);
    lemma_line_bounds(bc);
    is_char_boundary_start_end_of_seq(ob);
    assert forall|k: int| 0 <= k < b.len() implies is_char_boundary(ob, #[trigger] b[k]) by {
        if 0 < k < b.len() - 1 {
            assert(b[0] < b[k] < b.last());
            let i = b[k] - 1;
            assert(bc[i] == '\n');
            assert(ob[i] == 10u8);
            is_char_boundary_iff_not_is_continuation_byte(ob, i);
            lemma_boundary_after_ascii(ob, i);
        }
    }
}

/// Byte offsets where the lines of `contents` start, followed by its length.
pub fn line_offsets(contents: &str) -> (offsets: Vec<usize>)
    ensures
        offsets@.len() == byte_line_bounds(encode_utf8(contents@)).len(),
        forall|k: int|
            0 <= k < offsets@.len() ==> #[trigger] offsets@[k] as int == byte_line_bounds(
                encode_utf8(contents@),
            )[k],
{
    let bytes = contents.as_bytes();
    let ghost bv = bytes_as_chars(bytes@);
    let mut as_chars: Vec<char> = Vec::new();
    let mut i: usize = 0;
    while i < bytes.len()
        invariant
            i <= bytes@.len(),
            bv == bytes_as_chars(bytes@),
            as_chars@ == bv.take(i as int),
        decreases bytes@.len() - i,
    {
        as_chars.push(bytes[i] as char);
        i = i + 1;
        assert(as_chars@ =~= bv.take(i as int));
    }
    assert(bv.take(bytes@.len() as int) =~= bv);
    line_bounds_chars(as_chars.as_slice())
}


/// An edit whose `old_string` lines appear in the file with only spaces or tabs around
/// them is never refused as not found: either an exact occurrence decides, or the
/// whitespace-tolerant search finds a block.
pub proof fn lemma_blank_padded_edit_is_found(
    original: Seq<char>,
    old: Seq<char>,
    new: Seq<char>,
    replace_all: bool,
    i: int,
    lead: Seq<Seq<char>>,
    trail: Seq<Seq<char>>,
)
    requires
        old.len() > 0,
        0 <= i,
        i + split_lines_spec(old).len() <= split_lines_spec(original).len(),
        lead.len() == split_lines_spec(old).len(),
        trail.len() == split_lines_spec(old).len(),
        forall|k: int|
            0 <= k < split_lines_spec(old).len() ==> all_blank(#[trigger] lead[k]) && all_blank(trail[k]),
        forall|k: int|
            0 <= k < split_lines_spec(old).len() ==> #[trigger] split_lines_spec(original)[i + k]
                == lead[k] + split_lines_spec(old)[k] + trail[k],
    ensures
        edit_spec(original, old, new, replace_all) != Err::<EditResultView, EditError>(EditError::NotFound),
{
    let lines = split_lines_spec(original);
    let pat = split_lines_spec(old);
    lemma_split_len(old);
    lemma_blank_padded_block_is_found(lines, pat, 0, i, lead, trail);
    lemma_seek_range(lines, pat, 0);
    let all = block_starts(lines, pat, 0);
    assert(all.len() > 0);
    let starts = fuzzy_starts(original, old, replace_all);
    if !replace_all && all.len() > 2 {
        assert(starts.len() == 2);
    }
}

/// An exact edit of a unique occurrence replaces just that occurrence: the text before
/// and after it is kept as it is.
pub proof fn lemma_unique_exact_edit(h: Seq<char>, p: Seq<char>, r: Seq<char>, i: int)
    requires
        p.len() > 0,
        occurrences(h, p, 0) == seq![i],
    ensures
        occurs_at(h, p, i),
        replace_all_from(h, p, r, 0) == h.take(i) + r + h.skip(i + p.len()),
{
    lemma_first_occurrence(h, p, 0);
    let j = i + p.len();
    match first_occurrence(h, p, 0) {
        Some(k) => {
            assert(0 <= k <= h.len() - p.len());
            assert(occurrences(h, p, 0) == seq![k] + occurrences(h, p, k + p.len()));
            assert((seq![k] + occurrences(h, p, k + p.len()))[0] == k);
            assert(k == i);
            assert(occurrences(h, p, j).len() == 0);
            lemma_first_occurrence(h, p, j);
            match first_occurrence(h, p, j) {
                Some(m) => {
                    if j <= m <= h.len() - p.len() {
                        assert(occurrences(h, p, j).len() > 0);
                    }
                },
                None => {},
            }
            assert(h.subrange(0, i) == h.take(i));
            assert(replace_all_from(h, p, r, 0) == h.subrange(0, i) + r + replace_all_from(h, p, r, j));
        },
        None => {},
    }
}

/// The matched blocks, each `plen` lines long, do not overlap: each ends at or before
/// the next begins.
pub open spec fn blocks_disjoint(starts: Seq<int>, plen: int) -> bool {
    forall|k: int| 0 <= k < starts.len() - 1 ==> #[trigger] starts[k] + plen <= starts[k + 1]
}

proof fn lemma_adjust_valid(r: Seq<u8>, block_ends_with_newline: bool)
    requires
        valid_utf8(r),
    ensures
        valid_utf8(adjust_replacement(r, block_ends_with_newline)),
{
    let r_nl = r.len() > 0 && r.last() == 10u8;
    if block_ends_with_newline && !r_nl {
        lemma_newline_byte_valid();
        valid_utf8_concat(r, seq![10u8]);
        assert(r.push(10u8) =~= r + seq![10u8]);
    } else if !block_ends_with_newline && r_nl {
        let n = r.len() - 1;
        is_char_boundary_iff_not_is_continuation_byte(r, n);
        valid_utf8_split(r, n);
        assert(r.subrange(0, n) =~= r.drop_last());
    }
}

/// A boundary at or before another boundary `m` is a boundary of the first `m` bytes.
proof fn lemma_boundary_in_prefix(b: Seq<u8>, i: int, m: int)
    requires
        valid_utf8(b),
        is_char_boundary(b, i),
        is_char_boundary(b, m),
        0 <= i <= m,
    ensures
        valid_utf8(b.take(m)),
        is_char_boundary(b.take(m), i),
    decreases b.len(),
{
    valid_utf8_split(b, m);
    assert(b.take(m) =~= b.subrange(0, m));
    if i > 0 {
        reveal_with_fuel(is_char_boundary, 2);
        let lf = length_of_first_scalar(b);
        let p = pop_first_scalar(b);
        let t = b.take(m);
        assert(t[0] == b[0]);
        assert(length_of_first_scalar(t) == lf);
        assert(pop_first_scalar(t) =~= p.take(m - lf));
        lemma_boundary_in_prefix(p, i - lf, m - lf);
    }
}

/// A boundary of valid bytes stays one when valid bytes are appended.
proof fn lemma_boundary_in_concat(p: Seq<u8>, q: Seq<u8>, i: int)
    requires
        valid_utf8(p),
        valid_utf8(q),
        is_char_boundary(p, i),
    ensures
        valid_utf8(p + q),
        is_char_boundary(p + q, i),
    decreases p.len(),
{
    valid_utf8_concat(p, q);
    if i > 0 {
        reveal_with_fuel(is_char_boundary, 2);
        let lf = length_of_first_scalar(p);
        assert((p + q)[0] == p[0]);
        assert(length_of_first_scalar(p + q) == lf);
        assert(pop_first_scalar(p + q) =~= pop_first_scalar(p) + q);
        lemma_boundary_in_concat(pop_first_scalar(p), q, i - lf);
    }
}

/// Splicing disjoint blocks, the last first, always succeeds: before each step the text
/// still agrees with the original up to the start of the block spliced last (`limit`).
proof fn lemma_disjoint_apply(
    ob: Seq<u8>,
    b: Seq<int>,
    plen: int,
    r: Seq<u8>,
    sv: Seq<int>,
    j: int,
    w: Seq<u8>,
    limit: int,
)
    requires
        valid_utf8(ob),
        valid_utf8(r),
        valid_utf8(w),
        forall|k: int| 0 <= k < b.len() ==> 0 <= #[trigger] b[k] <= ob.len(),
        forall|k: int| 0 <= k < b.len() ==> is_char_boundary(ob, #[trigger] b[k]),
        forall|x: int, y: int| 0 <= x < y < b.len() ==> #[trigger] b[x] < #[trigger] b[y],
        plen >= 0,
        0 <= j <= sv.len(),
        forall|k: int| 0 <= k < sv.len() ==> 0 <= #[trigger] sv[k] && sv[k] + plen < b.len(),
        blocks_disjoint(sv, plen),
        limit == if j == sv.len() {
            ob.len() as int
        } else {
            b[sv[j]]
        },
    ensures
        apply_from(ob.take(limit) + w, ob, b, plen, r, sv.take(j)) is Some,
    decreases j,
{
    is_char_boundary_start_end_of_seq(ob);
    if j > 0 {
        let s = sv[j - 1];
        let lo = b[s];
        let hi = b[s + plen];
        let u = ob.take(limit) + w;
        assert(sv.take(j).last() == s);
        assert(sv.take(j).drop_last() =~= sv.take(j - 1));
        assert(lo <= hi) by {
            if plen > 0 {
                assert(b[s] < b[s + plen]);
            }
        }
        assert(hi <= limit) by {
            if j < sv.len() {
                assert(s + plen <= sv[j]);
                if s + plen < sv[j] {
                    assert(b[s + plen] < b[sv[j]]);
                }
            }
        }
        assert(is_char_boundary(ob, limit));
        lemma_boundary_in_prefix(ob, lo, limit);
        lemma_boundary_in_prefix(ob, hi, limit);
        let pre = ob.take(limit);
        lemma_boundary_in_concat(pre, w, lo);
        lemma_boundary_in_concat(pre, w, hi);
        assert(u.take(lo) =~= ob.take(lo));
        valid_utf8_split(pre, hi);
        let mid = pre.subrange(hi, limit);
        assert(u.skip(hi) =~= mid + w);
        let block_nl = lo < hi && ob[hi - 1] == 10u8;
        let adj = adjust_replacement(r, block_nl);
        lemma_adjust_valid(r, block_nl);
        valid_utf8_concat(mid, w);
        valid_utf8_concat(adj, mid + w);
        let w2 = adj + (mid + w);
        assert(u.take(lo) + adj + u.skip(hi) =~= ob.take(lo) + w2);
        lemma_disjoint_apply(ob, b, plen, r, sv, j - 1, w2, lo);
    }
}

/// A whitespace-tolerant edit whose matched blocks do not overlap can always be made:
/// every block's byte range lies within the text as the later replacements left it, on
/// character boundaries.
pub proof fn lemma_disjoint_match_edit_is_supported(
    original: Seq<char>,
    old: Seq<char>,
    new: Seq<char>,
    replace_all: bool,
)
    requires
        blocks_disjoint(fuzzy_starts(original, old, replace_all), split_lines_spec(old).len() as int),
    ensures
        edit_supported(original, old, new, replace_all),
{
    let starts = fuzzy_starts(original, old, replace_all);
    if old.len() > 0 {
        let lines = split_lines_spec(original);
        let pat = split_lines_spec(old);
        lemma_split_len(old);
        lemma_split_len(original);
        lemma_block_starts(lines, pat, 0);
        let all = block_starts(lines, pat, 0);
        assert forall|k: int| 0 <= k < starts.len() implies 0 <= #[trigger] starts[k] && starts[k]
            + pat.len() <= lines.len() by {
            assert(starts[k] == all[k]);
        }
        let ob = encode_utf8(original);
        let b = byte_line_bounds(ob);
        lemma_byte_line_bounds_len(original);
        lemma_byte_bounds_are_boundaries(original);
        lemma_line_bounds(bytes_as_chars(ob));
        encode_utf8_valid_utf8(original);
        encode_utf8_valid_utf8(new);
        let empty = Seq::<u8>::empty();
        lemma_disjoint_apply(
            ob,
            b,
            pat.len() as int,
            encode_utf8(new),
            starts,
            starts.len() as int,
            empty,
            ob.len() as int,
        );
        assert(ob.take(ob.len() as int) + empty =~= ob);
        assert(starts.take(starts.len() as int) =~= starts);
    }
}

/// An edit that replaces a single whitespace-tolerant match can always be made. Only
/// `replace_all` edits, whose matched blocks may overlap, can fail to splice.
pub proof fn lemma_single_match_edit_is_supported(original: Seq<char>, old: Seq<char>, new: Seq<char>)
    ensures
        edit_supported(original, old, new, false),
{
    let starts = fuzzy_starts(original, old, false);
    if starts.len() <= 1 {
        lemma_disjoint_match_edit_is_supported(original, old, new, false);
    }
}

} // verus!
