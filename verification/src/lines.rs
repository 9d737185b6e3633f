//! Line splitting and the whitespace-tolerant line-block search used by `edit_file`.
//!
//! A block of pattern lines is looked for in four passes of growing tolerance: exact
//! lines, lines compared without trailing whitespace, lines compared without surrounding
//! whitespace, and finally lines compared after also mapping typographic dashes, quotes
//! and spaces to their ASCII forms. The first pass that finds the block decides.
use vstd::prelude::*;

verus! {

/// `char::is_whitespace`: the Unicode `White_Space` property.
pub open spec fn is_whitespace(c: char) -> bool {
    let u = c as u32;
    ||| u == 0x20
    ||| (0x09 <= u && u <= 0x0d)
    ||| u == 0x85
    ||| u == 0xa0
    ||| u == 0x1680
    ||| (0x2000 <= u && u <= 0x200a)
    ||| u == 0x2028
    ||| u == 0x2029
    ||| u == 0x202f
    ||| u == 0x205f
    ||| u == 0x3000
}

/// `str::trim_end`.
pub open spec fn trim_end(s: Seq<char>) -> Seq<char>
    decreases s.len(),
{
    if s.len() > 0 && is_whitespace(s.last()) {
        trim_end(s.drop_last())
    } else {
        s
    }
}

/// `str::trim_start`.
pub open spec fn trim_start(s: Seq<char>) -> Seq<char>
    decreases s.len(),
{
    if s.len() > 0 && is_whitespace(s[0]) {
        trim_start(s.drop_first())
    } else {
        s
    }
}

/// `str::trim`.
pub open spec fn trim(s: Seq<char>) -> Seq<char> {
    trim_start(trim_end(s))
}

/// Typographic dashes, quotes and spaces mapped to their ASCII forms.
pub open spec fn normalize_char(c: char) -> char {
    let u = c as u32;
    if (0x2010 <= u && u <= 0x2015) || u == 0x2212 {
        '-'
    } else if 0x2018 <= u && u <= 0x201b {
        '\''
    } else if 0x201c <= u && u <= 0x201f {
        '"'
    } else if u == 0xa0 || (0x2002 <= u && u <= 0x200a) || u == 0x202f || u == 0x205f || u
        == 0x3000 {
        ' '
    } else {
        c
    }
}

/// A line trimmed and with typographic punctuation normalized.
pub open spec fn normalize_line(s: Seq<char>) -> Seq<char> {
    trim(s).map_values(|c: char| normalize_char(c))
}

/// The form a line is compared in during pass `pass` (0 to 3).
pub open spec fn comparable(s: Seq<char>, pass: nat) -> Seq<char> {
    if pass == 0 {
        s
    } else if pass == 1 {
        trim_end(s)
    } else if pass == 2 {
        trim(s)
    } else {
        normalize_line(s)
    }
}

/// The pattern lines match the text lines starting at line `i` in pass `pass`.
pub open spec fn block_matches(
    lines: Seq<Seq<char>>,
    pattern: Seq<Seq<char>>,
    i: int,
    pass: nat,
) -> bool {
    &&& 0 <= i
    &&& i + pattern.len() <= lines.len()
    &&& forall|k: int|
        0 <= k < pattern.len() ==> comparable(#[trigger] lines[i + k], pass) == comparable(
            pattern[k],
            pass,
        )
}

/// First line index at or after `from` where the block matches in pass `pass`.
pub open spec fn first_block(
    lines: Seq<Seq<char>>,
    pattern: Seq<Seq<char>>,
    from: int,
    pass: nat,
) -> Option<int>
    decreases lines.len() - from,
{
    if from < 0 || from + pattern.len() > lines.len() {
        None
    } else if block_matches(lines, pattern, from, pass) {
        Some(from)
    } else {
        first_block(lines, pattern, from + 1, pass)
    }
}

/// Where the block of pattern lines is found at or after line `start`: the first match
/// of the strictest pass that finds one.
pub open spec fn seek_lines(lines: Seq<Seq<char>>, pattern: Seq<Seq<char>>, start: int) -> Option<
    int,
> {
    if pattern.len() == 0 {
        Some(start)
    } else if pattern.len() > lines.len() {
        None
    } else if first_block(lines, pattern, start, 0) is Some {
        first_block(lines, pattern, start, 0)
    } else if first_block(lines, pattern, start, 1) is Some {
        first_block(lines, pattern, start, 1)
    } else if first_block(lines, pattern, start, 2) is Some {
        first_block(lines, pattern, start, 2)
    } else {
        first_block(lines, pattern, start, 3)
    }
}

/// The search of one pass finds the first matching block at or after `from`, and finds
/// none only when no block there matches.
pub proof fn lemma_first_block_range(
    lines: Seq<Seq<char>>,
    pattern: Seq<Seq<char>>,
    from: int,
    pass: nat,
)
    requires
        from >= 0,
    ensures
        first_block(lines, pattern, from, pass) matches Some(i) ==> from <= i && block_matches(
            lines,
            pattern,
            i,
            pass,
        ),
        first_block(lines, pattern, from, pass) is None ==> forall|i: int|
            from <= i ==> !block_matches(lines, pattern, i, pass),
    decreases lines.len() - from,
{
    if from < 0 || from + pattern.len() > lines.len() {
    } else if block_matches(lines, pattern, from, pass) {
    } else {
        lemma_first_block_range(lines, pattern, from + 1, pass);
    }
}

/// A block found by the search starts at or after `start` and lies within the text.
pub proof fn lemma_seek_range(lines: Seq<Seq<char>>, pattern: Seq<Seq<char>>, start: int)
    requires
        pattern.len() > 0,
        start >= 0,
    ensures
        seek_lines(lines, pattern, start) matches Some(i) ==> start <= i && i + pattern.len()
            <= lines.len(),
{
    lemma_first_block_range(lines, pattern, start, 0);
    lemma_first_block_range(lines, pattern, start, 1);
    lemma_first_block_range(lines, pattern, start, 2);
    lemma_first_block_range(lines, pattern, start, 3);
}

/// A space or a tab.
pub open spec fn is_blank(c: char) -> bool {
    c == ' ' || c == '\t'
}

/// Every character of `w` is a space or a tab.
pub open spec fn all_blank(w: Seq<char>) -> bool {
    forall|i: int| 0 <= i < w.len() ==> is_blank(#[trigger] w[i])
}

proof fn lemma_blanks_are_whitespace(w: Seq<char>)
    requires
        all_blank(w),
    ensures
        forall|i: int| 0 <= i < w.len() ==> is_whitespace(#[trigger] w[i]),
{
    assert forall|i: int| 0 <= i < w.len() implies is_whitespace(#[trigger] w[i]) by {
        assert(is_blank(w[i]));
    }
}

proof fn lemma_trim_end_drops_trailing(x: Seq<char>, w: Seq<char>)
    requires
        forall|i: int| 0 <= i < w.len() ==> is_whitespace(#[trigger] w[i]),
    ensures
        trim_end(x + w) == trim_end(x),
    decreases w.len(),
{
    if w.len() == 0 {
        assert(x + w =~= x);
    } else {
        assert((x + w).last() == w.last());
        assert((x + w).drop_last() =~= x + w.drop_last());
        lemma_trim_end_drops_trailing(x, w.drop_last());
    }
}

proof fn lemma_trim_start_drops_leading(w: Seq<char>, x: Seq<char>)
    requires
        forall|i: int| 0 <= i < w.len() ==> is_whitespace(#[trigger] w[i]),
    ensures
        trim_start(w + x) == trim_start(x),
    decreases w.len(),
{
    if w.len() == 0 {
        assert(w + x =~= x);
    } else {
        assert((w + x)[0] == w[0]);
        assert((w + x).drop_first() =~= w.drop_first() + x);
        lemma_trim_start_drops_leading(w.drop_first(), x);
    }
}

proof fn lemma_trim_end_keeps_leading(w: Seq<char>, x: Seq<char>)
    ensures
        trim_end(x).len() > 0 ==> trim_end(w + x) == w + trim_end(x),
        (trim_end(x).len() == 0 && forall|i: int| 0 <= i < w.len() ==> is_whitespace(#[trigger] w[i]))
            ==> trim_end(w + x).len() == 0,
    decreases x.len(),
{
    if x.len() == 0 {
        assert(w + x =~= w);
        if forall|i: int| 0 <= i < w.len() ==> is_whitespace(#[trigger] w[i]) {
            lemma_trim_end_drops_trailing(Seq::<char>::empty(), w);
            assert(Seq::<char>::empty() + w =~= w);
        }
    } else {
        assert((w + x).last() == x.last());
        assert((w + x).drop_last() =~= w + x.drop_last());
        lemma_trim_end_keeps_leading(w, x.drop_last());
    }
}

/// Spaces and tabs around a line never change its trimmed form.
pub proof fn lemma_trim_ignores_blanks(lead: Seq<char>, x: Seq<char>, trail: Seq<char>)
    requires
        all_blank(lead),
        all_blank(trail),
    ensures
        trim(lead + x + trail) == trim(x),
{
    lemma_blanks_are_whitespace(lead);
    lemma_blanks_are_whitespace(trail);
    lemma_trim_end_drops_trailing(lead + x, trail);
    lemma_trim_end_keeps_leading(lead, x);
    if trim_end(x).len() > 0 {
        lemma_trim_start_drops_leading(lead, trim_end(x));
    } else {
        assert(trim_end(lead + x) =~= Seq::<char>::empty());
        assert(trim_end(x) =~= Seq::<char>::empty());
    }
}

/// The whitespace-tolerant search finds a block whose lines are the pattern's lines with
/// spaces or tabs around them: it finds some block at or after `start` (the first of the
/// strictest pass that matches).
pub proof fn lemma_blank_padded_block_is_found(
    lines: Seq<Seq<char>>,
    pattern: Seq<Seq<char>>,
    start: int,
    i: int,
    lead: Seq<Seq<char>>,
    trail: Seq<Seq<char>>,
)
    requires
        pattern.len() > 0,
        0 <= start <= i,
        i + pattern.len() <= lines.len(),
        lead.len() == pattern.len(),
        trail.len() == pattern.len(),
        forall|k: int| 0 <= k < pattern.len() ==> all_blank(#[trigger] lead[k]) && all_blank(trail[k]),
        forall|k: int| 0 <= k < pattern.len() ==> #[trigger] lines[i + k] == lead[k] + pattern[k] + trail[k],
    ensures
        seek_lines(lines, pattern, start) matches Some(j) && start <= j && j + pattern.len() <= lines.len(),
{
    assert forall|k: int| 0 <= k < pattern.len() implies comparable(#[trigger] lines[i + k], 2) == comparable(
        pattern[k],
        2,
    ) by {
        lemma_trim_ignores_blanks(lead[k], pattern[k], trail[k]);
    }
    assert(block_matches(lines, pattern, i, 2));
    lemma_first_block_range(lines, pattern, start, 2);
    lemma_seek_range(lines, pattern, start);
}

/// Starts of the successive block matches, each search resuming one line after the
/// previous match.
pub open spec fn block_starts(lines: Seq<Seq<char>>, pattern: Seq<Seq<char>>, from: int) -> Seq<
    int,
>
    decreases lines.len() - from,
{
    if pattern.len() == 0 || from < 0 || from > lines.len() {
        seq![]
    } else {
        match seek_lines(lines, pattern, from) {
            Some(i) => if from <= i < lines.len() {
                seq![i] + block_starts(lines, pattern, i + 1)
            } else {
                seq![]
            },
            None => seq![],
        }
    }
}

/// The block starts increase strictly, and every block lies within the text.
pub proof fn lemma_block_starts(lines: Seq<Seq<char>>, pattern: Seq<Seq<char>>, from: int)
    requires
        pattern.len() > 0,
        from >= 0,
    ensures
        forall|k: int|
            0 <= k < block_starts(lines, pattern, from).len() ==> from <= #[trigger] block_starts(
                lines,
                pattern,
                from,
            )[k] && block_starts(lines, pattern, from)[k] + pattern.len() <= lines.len(),
        forall|j: int, k: int|
            0 <= j < k < block_starts(lines, pattern, from).len() ==> #[trigger] block_starts(
                lines,
                pattern,
                from,
            )[j] < #[trigger] block_starts(lines, pattern, from)[k],
    decreases lines.len() - from,
{
    if from <= lines.len() {
        lemma_seek_range(lines, pattern, from);
        if let Some(i) = seek_lines(lines, pattern, from) {
            if from <= i < lines.len() {
                lemma_block_starts(lines, pattern, i + 1);
                let rest = block_starts(lines, pattern, i + 1);
                let all = block_starts(lines, pattern, from);
                assert(all == seq![i] + rest);
                assert forall|k: int| 0 <= k < all.len() implies from <= #[trigger] all[k] && all[k]
                    + pattern.len() <= lines.len() by {
                    if k > 0 {
                        assert(all[k] == rest[k - 1]);
                    }
                }
                assert forall|j: int, k: int| 0 <= j < k < all.len() implies #[trigger] all[j]
                    < #[trigger] all[k] by {
                    assert(all[k] == rest[k - 1]);
                    if j > 0 {
                        assert(all[j] == rest[j - 1]);
                    }
                }
            }
        }
    }
}

/// Offsets where lines start, followed by the end offset of the last line: `0`, then the
/// end of every `\n`-terminated segment, then the text length when the text does not end
/// with a newline.
pub open spec fn newline_ends(s: Seq<char>, n: int) -> Seq<int>
    decreases n,
{
    if n <= 0 {
        seq![]
    } else if s[n - 1] == '\n' {
        newline_ends(s, n - 1).push(n)
    } else {
        newline_ends(s, n - 1)
    }
}

pub open spec fn line_bounds(s: Seq<char>) -> Seq<int> {
    let ends = seq![0int] + newline_ends(s, s.len() as int);
    if s.len() > 0 && s.last() != '\n' {
        ends.push(s.len() as int)
    } else {
        ends
    }
}

/// The lines of a text: split at `\n`, without the empty piece after a final newline.
pub open spec fn split_lines_spec(s: Seq<char>) -> Seq<Seq<char>> {
    let b = line_bounds(s);
    Seq::new(
        (b.len() - 1) as nat,
        |k: int|
            {
                let end = b[k + 1];
                if s[end - 1] == '\n' {
                    s.subrange(b[k], end - 1)
                } else {
                    s.subrange(b[k], end)
                }
            },
    )
}

/// The segment ends lie in `1..=n`, increase strictly, and each follows a newline.
pub proof fn lemma_newline_ends(s: Seq<char>, n: int)
    requires
        0 <= n <= s.len(),
    ensures
        forall|k: int| 0 <= k < newline_ends(s, n).len() ==> 1 <= #[trigger] newline_ends(s, n)[k] <= n,
        forall|j: int, k: int|
            0 <= j < k < newline_ends(s, n).len() ==> #[trigger] newline_ends(s, n)[j]
                < #[trigger] newline_ends(s, n)[k],
        forall|k: int|
            0 <= k < newline_ends(s, n).len() ==> s[#[trigger] newline_ends(s, n)[k] - 1] == '\n',
    decreases n,
{
    if n > 0 {
        lemma_newline_ends(s, n - 1);
        let prev = newline_ends(s, n - 1);
        if s[n - 1] == '\n' {
            let cur = prev.push(n);
            assert(newline_ends(s, n) == cur);
            assert forall|k: int| 0 <= k < cur.len() implies 1 <= #[trigger] cur[k] <= n by {
                if k < prev.len() {
                    assert(cur[k] == prev[k]);
                }
            }
            assert forall|j: int, k: int| 0 <= j < k < cur.len() implies #[trigger] cur[j]
                < #[trigger] cur[k] by {
                assert(cur[j] == prev[j]);
                if k < prev.len() {
                    assert(cur[k] == prev[k]);
                }
            }
            assert forall|k: int| 0 <= k < cur.len() implies s[#[trigger] cur[k] - 1] == '\n' by {
                if k < prev.len() {
                    assert(cur[k] == prev[k]);
                }
            }
        }
    }
}

/// Line bounds start at zero, increase strictly, end at the text length, and every
/// inner bound follows a newline.
pub proof fn lemma_line_bounds(s: Seq<char>)
    ensures
        line_bounds(s).len() >= 1,
        line_bounds(s)[0] == 0,
        line_bounds(s).last() == s.len(),
        forall|j: int, k: int|
            0 <= j < k < line_bounds(s).len() ==> #[trigger] line_bounds(s)[j]
                < #[trigger] line_bounds(s)[k],
        forall|k: int|
            0 < k < line_bounds(s).len() - 1 ==> s[#[trigger] line_bounds(s)[k] - 1] == '\n',
        forall|k: int| 0 <= k < line_bounds(s).len() ==> 0 <= #[trigger] line_bounds(s)[k] <= s.len(),
{
    let n = s.len() as int;
    lemma_newline_ends(s, n);
    let ends = seq![0int] + newline_ends(s, n);
    assert forall|k: int| 0 < k < ends.len() implies ends[k] == newline_ends(s, n)[k - 1] by {}
    if n > 0 && s.last() != '\n' {
        if newline_ends(s, n).len() > 0 {
            assert(newline_ends(s, n).last() <= n);
            assert(s[newline_ends(s, n).last() - 1] == '\n');
            assert(newline_ends(s, n).last() != n);
        }
    } else if n > 0 {
        assert(newline_ends(s, n) == newline_ends(s, n - 1).push(n));
    }
}

/// The abstract lines held by a vector of character vectors.
pub open spec fn line_views(lines: Seq<Vec<char>>) -> Seq<Seq<char>> {
    lines.map_values(|l: Vec<char>| l@)
}

/// `char::is_whitespace`.
pub fn is_whitespace_char(c: char) -> (ws: bool)
    ensures
        ws == is_whitespace(c),
{
    let u = c as u32;
    u == 0x20 || (0x09 <= u && u <= 0x0d) || u == 0x85 || u == 0xa0 || u == 0x1680 || (0x2000
        <= u && u <= 0x200a) || u == 0x2028 || u == 0x2029 || u == 0x202f || u == 0x205f || u
        == 0x3000
}

fn normalize_one(c: char) -> (n: char)
    ensures
        n == normalize_char(c),
{
    let u = c as u32;
    if (0x2010 <= u && u <= 0x2015) || u == 0x2212 {
        '-'
    } else if 0x2018 <= u && u <= 0x201b {
        '\''
    } else if 0x201c <= u && u <= 0x201f {
        '"'
    } else if u == 0xa0 || (0x2002 <= u && u <= 0x200a) || u == 0x202f || u == 0x205f || u
        == 0x3000 {
        ' '
    } else {
        c
    }
}

proof fn lemma_trim_end_prefix(s: Seq<char>, e: int)
    requires
        0 <= e <= s.len(),
        forall|k: int| e <= k < s.len() ==> is_whitespace(#[trigger] s[k]),
    ensures
        trim_end(s) == trim_end(s.take(e)),
    decreases s.len() - e,
{
    if e < s.len() {
        assert(s.drop_last() =~= s.take(s.len() - 1));
        assert(s.take(s.len() - 1).take(e) =~= s.take(e));
        lemma_trim_end_prefix(s.take(s.len() - 1), e);
    } else {
        assert(s.take(e) =~= s);
    }
}

proof fn lemma_trim_start_suffix(s: Seq<char>, b: int)
    requires
        0 <= b <= s.len(),
        forall|k: int| 0 <= k < b ==> is_whitespace(#[trigger] s[k]),
    ensures
        trim_start(s) == trim_start(s.skip(b)),
    decreases b,
{
    if b > 0 {
        assert(s.drop_first().skip(b - 1) =~= s.skip(b));
        lemma_trim_start_suffix(s.drop_first(), b - 1);
    } else {
        assert(s.skip(0) =~= s);
    }
}

fn trim_end_chars(s: &[char]) -> (t: Vec<char>)
    ensures
        t@ == trim_end(s@),
{
    let mut e = s.len();
    while e > 0 && is_whitespace_char(s[e - 1])
        invariant
            e <= s.len(),
            forall|k: int| e <= k < s.len() ==> is_whitespace(#[trigger] s@[k]),
        decreases e,
    {
        e = e - 1;
    }
    proof {
        lemma_trim_end_prefix(s@, e as int);
    }
    let mut t: Vec<char> = Vec::new();
    let mut i: usize = 0;
    while i < e
        invariant
            i <= e <= s.len(),
            t@ == s@.take(i as int),
        decreases e - i,
    {
        t.push(s[i]);
        i = i + 1;
        assert(t@ =~= s@.take(i as int));
    }
    t
}

fn trim_start_chars(s: &[char]) -> (t: Vec<char>)
    ensures
        t@ == trim_start(s@),
{
    let mut b: usize = 0;
    while b < s.len() && is_whitespace_char(s[b])
        invariant
            b <= s.len(),
            forall|k: int| 0 <= k < b ==> is_whitespace(#[trigger] s@[k]),
        decreases s.len() - b,
    {
        b = b + 1;
    }
    proof {
        lemma_trim_start_suffix(s@, b as int);
        let r = s@.skip(b as int);
        assert(r.len() == 0 || !is_whitespace(r[0]));
    }
    let mut t: Vec<char> = Vec::new();
    let mut i: usize = b;
    while i < s.len()
        invariant
            b <= i <= s.len(),
            t@ == s@.subrange(b as int, i as int),
        decreases s.len() - i,
    {
        t.push(s[i]);
        i = i + 1;
        assert(t@ =~= s@.subrange(b as int, i as int));
    }
    assert(t@ =~= s@.skip(b as int));
    t
}

/// The characters without surrounding whitespace (`str::trim`).
pub fn trim_chars(s: &[char]) -> (t: Vec<char>)
    ensures
        t@ == trim(s@),
{
    let e = trim_end_chars(s);
    trim_start_chars(e.as_slice())
}

/// The form a line is compared in during pass `pass`.
pub fn comparable_chars(s: &[char], pass: u8) -> (c: Vec<char>)
    requires
        pass <= 3,
    ensures
        c@ == comparable(s@, pass as nat),
{
    if pass == 0 {
        let mut c: Vec<char> = Vec::new();
        let mut i: usize = 0;
        while i < s.len()
            invariant
                i <= s.len(),
                c@ == s@.take(i as int),
            decreases s.len() - i,
        {
            c.push(s[i]);
            i = i + 1;
            assert(c@ =~= s@.take(i as int));
        }
        assert(c@ =~= s@);
        c
    } else if pass == 1 {
        trim_end_chars(s)
    } else {
        let end_trimmed = trim_end_chars(s);
        let trimmed = trim_start_chars(end_trimmed.as_slice());
        if pass == 2 {
            trimmed
        } else {
            let mut c: Vec<char> = Vec::new();
            let mut i: usize = 0;
            while i < trimmed.len()
                invariant
                    i <= trimmed.len(),
                    c@ == trimmed@.take(i as int).map_values(|x: char| normalize_char(x)),
                decreases trimmed.len() - i,
            {
                c.push(normalize_one(trimmed[i]));
                i = i + 1;
                assert(c@ =~= trimmed@.take(i as int).map_values(|x: char| normalize_char(x)));
            }
            assert(trimmed@.take(trimmed.len() as int) =~= trimmed@);
            c
        }
    }
}

/// Character-wise equality.
pub fn chars_equal(a: &[char], b: &[char]) -> (eq: bool)
    ensures
        eq == (a@ == b@),
{
    if a.len() != b.len() {
        return false;
    }
    let mut i: usize = 0;
    while i < a.len()
        invariant
            i <= a.len() == b.len(),
            forall|k: int| 0 <= k < i ==> a@[k] == b@[k],
        decreases a.len() - i,
    {
        if a[i] != b[i] {
            return false;
        }
        i = i + 1;
    }
    assert(a@ =~= b@);
    true
}

fn comparable_all(lines: &[Vec<char>], pass: u8) -> (c: Vec<Vec<char>>)
    requires
        pass <= 3,
    ensures
        c@.len() == lines@.len(),
        forall|k: int| 0 <= k < lines@.len() ==> #[trigger] c@[k]@ == comparable(lines@[k]@, pass as nat),
{
    let mut c: Vec<Vec<char>> = Vec::new();
    let mut i: usize = 0;
    while i < lines.len()
        invariant
            i <= lines.len(),
            pass <= 3,
            c@.len() == i,
            forall|k: int| 0 <= k < i ==> #[trigger] c@[k]@ == comparable(lines@[k]@, pass as nat),
        decreases lines.len() - i,
    {
        c.push(comparable_chars(lines[i].as_slice(), pass));
        i = i + 1;
    }
    c
}

fn first_block_in_pass(
    lines: &[Vec<char>],
    pattern: &[Vec<char>],
    start: usize,
    pass: u8,
) -> (found: Option<usize>)
    requires
        pass <= 3,
    ensures
        match found {
            Some(i) => first_block(line_views(lines@), line_views(pattern@), start as int, pass as nat)
                == Some(i as int),
            None => first_block(line_views(lines@), line_views(pattern@), start as int, pass as nat)
                is None,
        },
{
    let ghost lv = line_views(lines@);
    let ghost pv = line_views(pattern@);
    let cl = comparable_all(lines, pass);
    let cp = comparable_all(pattern, pass);
    if pattern.len() > lines.len() {
        return None;
    }
    let last = lines.len() - pattern.len();
    let mut i = start;
    while i <= last
        invariant
            last == lines.len() - pattern.len(),
            pattern.len() <= lines.len(),
            start <= i,
            cl@.len() == lines@.len(),
            cp@.len() == pattern@.len(),
            forall|k: int| 0 <= k < lines@.len() ==> #[trigger] cl@[k]@ == comparable(lines@[k]@, pass as nat),
            forall|k: int| 0 <= k < pattern@.len() ==> #[trigger] cp@[k]@ == comparable(pattern@[k]@, pass as nat),
            lv == line_views(lines@),
            pv == line_views(pattern@),
            first_block(lv, pv, start as int, pass as nat) == first_block(lv, pv, i as int, pass as nat),
        decreases last + 1 - i,
    {
        let mut k: usize = 0;
        let mut all = true;
        while k < pattern.len()
            invariant
                k <= pattern.len(),
                i + pattern.len() <= lines.len(),
                cl@.len() == lines@.len(),
                cp@.len() == pattern@.len(),
                all ==> forall|m: int| 0 <= m < k ==> cl@[i + m]@ == cp@[m]@,
                !all ==> exists|m: int| 0 <= m < pattern.len() && cl@[i + m]@ != cp@[m]@,
            decreases pattern.len() - k,
        {
            if !chars_equal(cl[i + k].as_slice(), cp[k].as_slice()) {
                all = false;
            }
            k = k + 1;
        }
        proof {
            if all {
                assert forall|m: int| 0 <= m < pv.len() implies comparable(#[trigger] lv[i + m], pass as nat)
                    == comparable(pv[m], pass as nat) by {
                    assert(cl@[i + m]@ == cp@[m]@);
                }
                assert(block_matches(lv, pv, i as int, pass as nat));
            } else {
                let m = choose|m: int| 0 <= m < pattern.len() && cl@[i + m]@ != cp@[m]@;
                assert(comparable(lv[i + m], pass as nat) != comparable(pv[m], pass as nat));
                assert(!block_matches(lv, pv, i as int, pass as nat));
            }
        }
        if all {
            return Some(i);
        }
        i = i + 1;
    }
    None
}

/// Finds a block of pattern lines at or after line `start`: exact lines first, then
/// lines compared without trailing whitespace, then without surrounding whitespace, then
/// also with typographic punctuation normalized.
pub fn seek_sequence(lines: &[Vec<char>], pattern: &[Vec<char>], start: usize) -> (found: Option<
    usize,
>)
    ensures
        match found {
            Some(i) => seek_lines(line_views(lines@), line_views(pattern@), start as int) == Some(
                i as int,
            ),
            None => seek_lines(line_views(lines@), line_views(pattern@), start as int) is None,
        },
{
    if pattern.len() == 0 {
        return Some(start);
    }
    if pattern.len() > lines.len() {
        return None;
    }
    let mut pass: u8 = 0;
    while pass < 4
        invariant
            pass <= 4,
            0 < pattern.len() <= lines.len(),
            forall|p: nat|
                p < pass ==> first_block(
                    line_views(lines@),
                    line_views(pattern@),
                    start as int,
                    p,
                ) is None,
        decreases 4 - pass,
    {
        if let Some(i) = first_block_in_pass(lines, pattern, start, pass) {
            return Some(i);
        }
        pass = pass + 1;
    }
    None
}

/// Line bounds of a text (see `line_bounds`).
pub fn line_bounds_chars(s: &[char]) -> (bounds: Vec<usize>)
    ensures
        bounds@.len() == line_bounds(s@).len(),
        forall|k: int| 0 <= k < bounds@.len() ==> #[trigger] bounds@[k] as int == line_bounds(s@)[k],
{
    let mut bounds: Vec<usize> = Vec::new();
    bounds.push(0);
    let mut i: usize = 0;
    while i < s.len()
        invariant
            i <= s.len(),
            bounds@.len() == 1 + newline_ends(s@, i as int).len(),
            bounds@[0] == 0,
            forall|k: int|
                0 < k < bounds@.len() ==> #[trigger] bounds@[k] as int == newline_ends(s@, i as int)[k
                    - 1],
        decreases s.len() - i,
    {
        let ghost prev = newline_ends(s@, i as int);
        if s[i] == '\n' {
            bounds.push(i + 1);
        }
        i = i + 1;
        assert(newline_ends(s@, i as int) == if s@[i - 1] == '\n' {
            prev.push(i as int)
        } else {
            prev
        });
    }
    let ghost ends = seq![0int] + newline_ends(s@, s@.len() as int);
    if s.len() > 0 && s[s.len() - 1] != '\n' {
        bounds.push(s.len());
    }
    proof {
        assert forall|k: int| 0 <= k < bounds@.len() implies #[trigger] bounds@[k] as int
            == line_bounds(s@)[k] by {
            if k > 0 && k < ends.len() {
                assert(ends[k] == newline_ends(s@, s@.len() as int)[k - 1]);
            }
        }
    }
    bounds
}

/// The lines of a text: split at `\n`, without the empty piece after a final newline.
pub fn split_lines_chars(s: &[char]) -> (lines: Vec<Vec<char>>)
    ensures
        line_views(lines@) == split_lines_spec(s@),
{
    let bounds = line_bounds_chars(s);
    proof {
        lemma_line_bounds(s@);
    }
    let ghost b = line_bounds(s@);
    let mut lines: Vec<Vec<char>> = Vec::new();
    let mut k: usize = 0;
    while k < bounds.len() - 1
        invariant
            k + 1 <= bounds@.len(),
            forall|i: int, j: int| 0 <= i < j < b.len() ==> #[trigger] b[i] < #[trigger] b[j],
            forall|i: int| 0 <= i < b.len() ==> 0 <= #[trigger] b[i] <= s@.len(),
            bounds@.len() == b.len(),
            b == line_bounds(s@),
            forall|j: int| 0 <= j < bounds@.len() ==> #[trigger] bounds@[j] as int == b[j],
            lines@.len() == k,
            forall|j: int| 0 <= j < k ==> #[trigger] lines@[j]@ == split_lines_spec(s@)[j],
        decreases bounds@.len() - k,
    {
        let start = bounds[k];
        let end = bounds[k + 1];
        assert(b[k as int] < b[k + 1]);
        let stop = if s[end - 1] == '\n' {
            end - 1
        } else {
            end
        };
        let mut line: Vec<char> = Vec::new();
        let mut i = start;
        while i < stop
            invariant
                start <= i <= stop <= s@.len(),
                line@ == s@.subrange(start as int, i as int),
            decreases stop - i,
        {
            line.push(s[i]);
            i = i + 1;
            assert(line@ =~= s@.subrange(start as int, i as int));
        }
        lines.push(line);
        k = k + 1;
    }
    assert(line_views(lines@) =~= split_lines_spec(s@));
    lines
}

} // verus!
