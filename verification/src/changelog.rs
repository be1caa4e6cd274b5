//! Parsing and browsing state for the embedded UDS changelog.
//!
//! The changelog is markdown whose level-1 headings are `# UDS v<version>`,
//! newest release first. Text positions count characters.

use vstd::prelude::*;
use vstd::utf8::{encode_scalar, encode_utf8, is_scalar};

use crate::text::{
    chars_of, char_is_whitespace, has_prefix, has_prefix_at, is_white_space, string_of, trim_end,
    trim_end_index, trim_start, decimal, push_decimal,
};
use crate::version::{
    parse_version, semver_le, spec_semver_parse, version_le, version_text, versions_equal, ReleaseVersion,
    VersionView,
};

verus! {

// ---------------------------------------------------------------------------
// Lines
// ---------------------------------------------------------------------------

/// `t` without its trailing carriage returns and line feeds
/// (`trim_end_matches(['\r', '\n'])`).
pub open spec fn strip_line_break(t: Seq<char>) -> Seq<char>
    decreases t.len(),
{
    if t.len() > 0 && (t.last() == '\r' || t.last() == '\n') {
        strip_line_break(t.drop_last())
    } else {
        t
    }
}

/// The lines of `s[start..]` as `str::split_inclusive('\n')` yields them,
/// scanning from position `i`: each with its start and its text without line break.
pub open spec fn lines_from(s: Seq<char>, start: int, i: int) -> Seq<(int, Seq<char>)>
    decreases s.len() - i,
{
    if i >= s.len() {
        if start < s.len() {
            seq![(start, strip_line_break(s.subrange(start, s.len() as int)))]
        } else {
            seq![]
        }
    } else if s[i] == '\n' {
        seq![(start, strip_line_break(s.subrange(start, i + 1)))] + lines_from(s, i + 1, i + 1)
    } else {
        lines_from(s, start, i + 1)
    }
}

/// The lines of `s`, each with the position where it starts.
pub open spec fn spec_lines(s: Seq<char>) -> Seq<(int, Seq<char>)> {
    lines_from(s, 0, 0)
}

/// The end `e` with `v[lo..e] == strip_line_break(v[lo..hi])`.
fn strip_line_break_index(v: &Vec<char>, lo: usize, hi: usize) -> (e: usize)
    requires
        lo <= hi <= v.len(),
    ensures
        lo <= e <= hi,
        v@.subrange(lo as int, e as int) == strip_line_break(v@.subrange(lo as int, hi as int)),
{
    let mut e = hi;
    while e > lo && (v[e - 1] == '\r' || v[e - 1] == '\n')
        invariant
            lo <= e <= hi <= v.len(),
            strip_line_break(v@.subrange(lo as int, e as int)) == strip_line_break(
                v@.subrange(lo as int, hi as int),
            ),
        decreases e,
    {
        assert(v@.subrange(lo as int, e as int).drop_last() =~= v@.subrange(
            lo as int,
            e - 1,
        ));
        e = e - 1;
    }
    e
}

/// The lines of `v`, as spans: where each starts and where its text ends.
fn line_spans(v: &Vec<char>) -> (spans: Vec<(usize, usize)>)
    ensures
        spans.len() == spec_lines(v@).len(),
        forall|k: int|
            #![trigger spans@[k]]
            0 <= k < spans.len() ==> {
                &&& spans[k].0 <= spans[k].1 <= v.len()
                &&& spans[k].0 < v.len()
                &&& spec_lines(v@)[k] == (
                    spans[k].0 as int,
                    v@.subrange(spans[k].0 as int, spans[k].1 as int),
                )
            },
        forall|k: int, j: int| #![trigger spans@[k], spans@[j]] 0 <= k < j < spans.len() ==> spans[k].0 < spans[j].0,
{
    let ghost s = v@;
    let n = v.len();
    let mut spans: Vec<(usize, usize)> = Vec::new();
    let ghost mut acc: Seq<(int, Seq<char>)> = seq![];
    let mut start: usize = 0;
    let mut i: usize = 0;
    while i < n
        invariant
            n == v.len(),
            s == v@,
            start <= i <= n,
            acc.len() == spans.len(),
            spec_lines(s) == acc + lines_from(s, start as int, i as int),
            forall|k: int|
                #![trigger spans@[k]]
                0 <= k < spans.len() ==> {
                    &&& spans[k].0 <= spans[k].1 <= n
                    &&& spans[k].0 < start
                    &&& acc[k] == (
                        spans[k].0 as int,
                        s.subrange(spans[k].0 as int, spans[k].1 as int),
                    )
                },
            forall|k: int, j: int| #![trigger spans@[k], spans@[j]] 0 <= k < j < spans.len() ==> spans[k].0 < spans[j].0,
        decreases n - i,
    {
        if v[i] == '\n' {
            let e = strip_line_break_index(v, start, i + 1);
            let ghost line = (start as int, s.subrange(start as int, e as int));
            assert(lines_from(s, start as int, i as int) == seq![line] + lines_from(
                s,
                i + 1,
                i + 1,
            ));
            assert(acc + lines_from(s, start as int, i as int) =~= acc.push(line) + lines_from(
                s,
                i + 1,
                i + 1,
            ));
            spans.push((start, e));
            proof {
                acc = acc.push(line);
            }
            start = i + 1;
        } else {
            assert(lines_from(s, start as int, i as int) == lines_from(
                s,
                start as int,
                i + 1,
            ));
        }
        i = i + 1;
    }
    if start < n {
        let e = strip_line_break_index(v, start, n);
        let ghost line = (start as int, s.subrange(start as int, e as int));
        assert(lines_from(s, start as int, n as int) == seq![line]);
        spans.push((start, e));
        proof {
            acc = acc.push(line);
        }
    } else {
        assert(lines_from(s, start as int, n as int) == Seq::<(int, Seq<char>)>::empty());
    }
    assert(spec_lines(s) =~= acc);
    spans
}

/// The lines of `source`, each paired with the byte position where it
/// starts; line breaks (`\r`, `\n`) are removed from the end of each line.
#[verifier::spinoff_prover]
pub fn line_offsets(source: &str) -> (lines: Vec<(usize, String)>)
    requires
        encode_utf8(source@).len() <= usize::MAX,
    ensures
        lines.len() == spec_lines(source@).len(),
        forall|k: int|
            0 <= k < lines.len() ==> lines[k].0 as nat == byte_offset(
                source@,
                #[trigger] spec_lines(source@)[k].0,
            ) && lines[k].1@ == spec_lines(source@)[k].1,
{
    let v = chars_of(source);
    let spans = line_spans(&v);
    proof {
        lemma_encode_utf8_len(v@);
    }
    let mut lines: Vec<(usize, String)> = Vec::new();
    let mut i: usize = 0;
    let mut b: usize = 0;
    let mut k: usize = 0;
    while k < spans.len()
        invariant
            v@ == source@,
            byte_offset(v@, v.len() as int) <= usize::MAX,
            i <= v.len(),
            b as nat == byte_offset(v@, i as int),
            k <= spans.len(),
            k < spans.len() ==> i <= spans[k as int].0,
            lines.len() == k,
            spans.len() == spec_lines(v@).len(),
            forall|m: int|
                #![trigger spans@[m]]
                0 <= m < spans.len() ==> {
                    &&& spans[m].0 <= spans[m].1 <= v.len()
                    &&& spec_lines(v@)[m] == (
                        spans[m].0 as int,
                        v@.subrange(spans[m].0 as int, spans[m].1 as int),
                    )
                },
            forall|m: int, j: int| #![trigger spans@[m], spans@[j]] 0 <= m < j < spans.len() ==> spans[m].0 < spans[j].0,
            forall|m: int|
                0 <= m < k ==> lines[m].0 as nat == byte_offset(v@, #[trigger] spec_lines(v@)[m].0)
                    && lines[m].1@ == spec_lines(v@)[m].1,
        decreases spans.len() - k,
    {
        let (lo, hi) = spans[k];
        b = byte_position(&v, i, b, lo);
        i = lo;
        let text = string_of(&v, lo, hi);
        let ghost before = lines@;
        lines.push((b, text));
        proof {
            assert(spec_lines(v@)[k as int] == (lo as int, text@));
            assert forall|m: int| 0 <= m < k + 1 implies lines[m].0 as nat == byte_offset(
                v@,
                #[trigger] spec_lines(v@)[m].0,
            ) && lines[m].1@ == spec_lines(v@)[m].1 by {
                if m < k {
                    assert(lines[m] == before[m]);
                }
            }
        }
        k = k + 1;
        proof {
            if k < spans.len() {
                assert(spans[k - 1].0 < spans[k as int].0);
            }
        }
    }
    lines
}

/// The byte position of character `target`, counting on from character `i`
/// at byte position `b`.
fn byte_position(v: &Vec<char>, i: usize, b: usize, target: usize) -> (r: usize)
    requires
        i <= target <= v.len(),
        b as nat == byte_offset(v@, i as int),
        byte_offset(v@, v.len() as int) <= usize::MAX,
    ensures
        r as nat == byte_offset(v@, target as int),
{
    let mut i = i;
    let mut b = b;
    while i < target
        invariant
            target <= v.len(),
            i <= target,
            byte_offset(v@, v.len() as int) <= usize::MAX,
            b as nat == byte_offset(v@, i as int),
        decreases target - i,
    {
        proof {
            lemma_byte_offset_monotone(v@, i + 1, v.len() as int);
        }
        b = b + utf8_width_of(v[i]) as usize;
        i = i + 1;
    }
    b
}

/// Byte positions grow with character positions.
proof fn lemma_byte_offset_monotone(s: Seq<char>, i: int, j: int)
    requires
        0 <= i <= j,
    ensures
        byte_offset(s, i) <= byte_offset(s, j),
    decreases j - i,
{
    if i < j {
        lemma_byte_offset_monotone(s, i, j - 1);
    }
}

/// A character takes as many bytes in UTF-8 as `encode_scalar` writes.
proof fn lemma_encode_scalar_len(c: char)
    ensures
        encode_scalar(c as u32).len() == utf8_width(c),
{
    broadcast use vstd::utf8::char_is_scalar;

    assert(is_scalar(c as u32));
}

/// Encoding one more character appends its bytes.
proof fn lemma_encode_utf8_push(a: Seq<char>, c: char)
    ensures
        encode_utf8(a.push(c)) == encode_utf8(a) + encode_scalar(c as u32),
    decreases a.len(),
{
    if a.len() == 0 {
        assert(a.push(c).drop_first() =~= Seq::<char>::empty());
        assert(a.push(c)[0] == c);
        assert(encode_utf8(Seq::<char>::empty()) == Seq::<u8>::empty());
        assert(encode_utf8(a) == Seq::<u8>::empty());
        assert(encode_utf8(a.push(c)) =~= encode_scalar(c as u32) + Seq::<u8>::empty());
    } else {
        assert(a.push(c).drop_first() =~= a.drop_first().push(c));
        lemma_encode_utf8_push(a.drop_first(), c);
        assert(encode_utf8(a.push(c)) =~= encode_utf8(a) + encode_scalar(c as u32));
    }
}

/// The UTF-8 encoding of the first `j` characters is `byte_offset(s, j)` long.
proof fn lemma_encode_utf8_prefix_len(s: Seq<char>, j: int)
    requires
        0 <= j <= s.len(),
    ensures
        encode_utf8(s.take(j)).len() == byte_offset(s, j),
    decreases j,
{
    if j > 0 {
        lemma_encode_utf8_prefix_len(s, j - 1);
        assert(s.take(j) =~= s.take(j - 1).push(s[j - 1]));
        lemma_encode_utf8_push(s.take(j - 1), s[j - 1]);
        lemma_encode_scalar_len(s[j - 1]);
    } else {
        assert(s.take(0) =~= Seq::<char>::empty());
    }
}

/// The UTF-8 encoding of `s` is `byte_offset(s, s.len())` long.
proof fn lemma_encode_utf8_len(s: Seq<char>)
    ensures
        encode_utf8(s).len() == byte_offset(s, s.len() as int),
{
    lemma_encode_utf8_prefix_len(s, s.len() as int);
    assert(s.take(s.len() as int) =~= s);
}

} // verus!

verus! {

// ---------------------------------------------------------------------------
// Sections
// ---------------------------------------------------------------------------

/// Why a changelog was refused.
pub enum ChangelogError {
    /// A line starts with `#` (but not `##`) and is not `# UDS v<version>`.
    InvalidHeading { line: String },
    /// A `# UDS v` heading is followed by text that is not a semantic version.
    InvalidVersion { value: String, cause: semver::Error },
    /// No `# UDS v` heading at all.
    NoSections,
    /// Two consecutive sections are not strictly newest first.
    NotNewestFirst,
    /// The expected package version itself is not a semantic version.
    InvalidExpectedVersion { cause: semver::Error },
    /// The first section is not the expected package version.
    VersionMismatch { expected: String },
}

/// The plain content of a `ChangelogError`.
pub enum ChangelogErrorView {
    InvalidHeading(Seq<char>),
    InvalidVersion(Seq<char>),
    NoSections,
    NotNewestFirst,
    InvalidExpectedVersion,
    VersionMismatch(Seq<char>),
}

impl View for ChangelogError {
    type V = ChangelogErrorView;

    open spec fn view(&self) -> ChangelogErrorView {
        match self {
            ChangelogError::InvalidHeading { line } => ChangelogErrorView::InvalidHeading(line@),
            ChangelogError::InvalidVersion { value, .. } => ChangelogErrorView::InvalidVersion(
                value@,
            ),
            ChangelogError::NoSections => ChangelogErrorView::NoSections,
            ChangelogError::NotNewestFirst => ChangelogErrorView::NotNewestFirst,
            ChangelogError::InvalidExpectedVersion { .. } => {
                ChangelogErrorView::InvalidExpectedVersion
            },
            ChangelogError::VersionMismatch { expected } => ChangelogErrorView::VersionMismatch(
                expected@,
            ),
        }
    }
}

/// One released version of the changelog and its markdown, heading included.
pub struct Section {
    pub version: ReleaseVersion,
    pub markdown: String,
}

/// The plain content of a `Section`.
pub struct SectionView {
    pub version: VersionView,
    pub markdown: Seq<char>,
}

impl View for Section {
    type V = SectionView;

    open spec fn view(&self) -> SectionView {
        SectionView { version: self.version@, markdown: self.markdown@ }
    }
}

/// `# `
pub open spec fn level1_prefix() -> Seq<char> {
    seq!['#', ' ']
}

/// `# UDS v`
pub open spec fn release_prefix() -> Seq<char> {
    seq!['#', ' ', 'U', 'D', 'S', ' ', 'v']
}

/// How one changelog line reads.
pub enum LineClass {
    Body,
    Release(VersionView),
    Invalid(ChangelogErrorView),
}

/// A line starting with `# ` must be `# UDS v<version>`; any other line that
/// starts with a single `#` is a malformed level-1 heading.
pub open spec fn classify_line(line: Seq<char>) -> LineClass {
    if has_prefix(line, level1_prefix()) {
        if has_prefix(line, release_prefix()) {
            let value = line.skip(7);
            match spec_semver_parse(value) {
                Some(v) => LineClass::Release(v),
                None => LineClass::Invalid(ChangelogErrorView::InvalidVersion(value)),
            }
        } else {
            LineClass::Invalid(ChangelogErrorView::InvalidHeading(line))
        }
    } else if has_prefix(line, seq!['#']) && !has_prefix(line, seq!['#', '#']) {
        LineClass::Invalid(ChangelogErrorView::InvalidHeading(line))
    } else {
        LineClass::Body
    }
}

/// The release headings among `lines`, in order, each with the position of
/// its line; or the first malformed heading.
pub open spec fn scan_headings(lines: Seq<(int, Seq<char>)>) -> Result<
    Seq<(int, VersionView)>,
    ChangelogErrorView,
>
    decreases lines.len(),
{
    if lines.len() == 0 {
        Ok(seq![])
    } else {
        match scan_headings(lines.drop_last()) {
            Err(e) => Err(e),
            Ok(starts) => match classify_line(lines.last().1) {
                LineClass::Body => Ok(starts),
                LineClass::Release(v) => Ok(starts.push((lines.last().0, v))),
                LineClass::Invalid(e) => Err(e),
            },
        }
    }
}

/// Every section is strictly newer than the one after it.
pub open spec fn newest_first(starts: Seq<(int, VersionView)>) -> bool {
    forall|i: int| 0 <= i < starts.len() - 1 ==> !semver_le(starts[i].1, #[trigger] starts[i + 1].1)
}

/// Where section `i` ends: where the next one starts, or at the end of the text.
pub open spec fn section_end(len: int, starts: Seq<(int, VersionView)>, i: int) -> int {
    if i + 1 < starts.len() {
        starts[i + 1].0
    } else {
        len
    }
}

/// The sections that start at `starts`, each ending where the next begins,
/// without trailing white space.
pub open spec fn spec_sections(src: Seq<char>, starts: Seq<(int, VersionView)>) -> Seq<SectionView> {
    Seq::new(
        starts.len(),
        |i: int|
            SectionView {
                version: starts[i].1,
                markdown: trim_end(src.subrange(starts[i].0, section_end(src.len() as int, starts, i))),
            },
    )
}

/// What `parse(src, expected)` gives.
pub open spec fn spec_parse(src: Seq<char>, expected: Seq<char>) -> Result<
    Seq<SectionView>,
    ChangelogErrorView,
> {
    match scan_headings(spec_lines(src)) {
        Err(e) => Err(e),
        Ok(starts) => if starts.len() == 0 {
            Err(ChangelogErrorView::NoSections)
        } else if !newest_first(starts) {
            Err(ChangelogErrorView::NotNewestFirst)
        } else {
            match spec_semver_parse(expected) {
                None => Err(ChangelogErrorView::InvalidExpectedVersion),
                Some(ev) => if starts[0].1 != ev {
                    Err(ChangelogErrorView::VersionMismatch(expected))
                } else {
                    Ok(spec_sections(src, starts))
                },
            }
        },
    }
}

/// The views of parsed sections.
pub open spec fn sections_view(s: Seq<Section>) -> Seq<SectionView> {
    s.map_values(|x: Section| x@)
}

/// A malformed heading stays the answer however many lines follow it.
proof fn lemma_scan_error_persists(lines: Seq<(int, Seq<char>)>, k: int)
    requires
        0 <= k <= lines.len(),
        scan_headings(lines.take(k)) is Err,
    ensures
        scan_headings(lines) == scan_headings(lines.take(k)),
    decreases lines.len() - k,
{
    if k < lines.len() {
        let rest = lines.drop_last();
        assert(rest.take(k) =~= lines.take(k));
        lemma_scan_error_persists(rest, k);
    } else {
        assert(lines.take(k) =~= lines);
    }
}

/// Splits the changelog into its release sections, newest first.
///
/// Every line that starts with `# ` must read `# UDS v<version>`, and no other
/// line may start with a single `#`. There must be at least one section,
/// each strictly newer than the next, and the first must be `expected`.
/// Each section runs from its heading to the next heading, trailing white
/// space removed.
pub fn parse(source: &str, expected: &str) -> (r: Result<Vec<Section>, ChangelogError>)
    ensures
        match r {
            Ok(sections) => {
                &&& spec_parse(source@, expected@) == Ok::<_, ChangelogErrorView>(
                    sections_view(sections@),
                )
                &&& forall|i: int|
                    0 <= i < sections.len() - 1 ==> sections[i].version@ != #[trigger] sections[i
                        + 1].version@
            },
            Err(e) => spec_parse(source@, expected@) == Err::<Seq<SectionView>, _>(e@),
        },
{
    let v = chars_of(source);
    let ghost s = v@;
    let spans = line_spans(&v);
    let ghost lines = spec_lines(s);
    let level1: Vec<char> = vec!['#', ' '];
    let release: Vec<char> = vec!['#', ' ', 'U', 'D', 'S', ' ', 'v'];
    let hash: Vec<char> = vec!['#'];
    let level2: Vec<char> = vec!['#', '#'];
    assert(level1@ == level1_prefix());
    assert(release@ == release_prefix());
    assert(hash@ == seq!['#']);
    assert(level2@ == seq!['#', '#']);

    let mut offsets: Vec<usize> = Vec::new();
    let mut versions: Vec<ReleaseVersion> = Vec::new();
    let ghost mut starts: Seq<(int, VersionView)> = seq![];
    let mut k: usize = 0;
    while k < spans.len()
        invariant
            s == v@,
            s == source@,
            lines == spec_lines(s),
            level1@ == level1_prefix(),
            release@ == release_prefix(),
            hash@ == seq!['#'],
            level2@ == seq!['#', '#'],
            spans.len() == lines.len(),
            forall|m: int|
                #![trigger spans@[m]]
                0 <= m < spans.len() ==> {
                    &&& spans[m].0 <= spans[m].1 <= v.len()
                    &&& spans[m].0 < v.len()
                    &&& lines[m] == (
                        spans[m].0 as int,
                        s.subrange(spans[m].0 as int, spans[m].1 as int),
                    )
                },
            forall|m: int, j: int|
                #![trigger spans@[m], spans@[j]]
                0 <= m < j < spans.len() ==> spans[m].0 < spans[j].0,
            k <= spans.len(),
            scan_headings(lines.take(k as int)) == Ok::<_, ChangelogErrorView>(starts),
            offsets.len() == starts.len(),
            versions.len() == starts.len(),
            forall|m: int|
                #![trigger starts[m]]
                0 <= m < starts.len() ==> starts[m] == (offsets[m] as int, versions[m]@),
            forall|m: int| #![trigger offsets@[m]] 0 <= m < offsets.len() ==> offsets[m] < v.len(),
            forall|m: int, j: int|
                #![trigger offsets@[m], offsets@[j]]
                0 <= m < j < offsets.len() ==> offsets[m] < offsets[j],
            k < spans.len() && offsets.len() > 0 ==> offsets[offsets.len() - 1] < spans[k as int].0,
        decreases spans.len() - k,
    {
        let (lo, hi) = spans[k];
        let ghost line = s.subrange(lo as int, hi as int);
        assert(lines.take(k + 1).drop_last() =~= lines.take(k as int));
        assert(lines.take(k + 1).last() == lines[k as int]);
        if has_prefix_at(&v, lo, hi, &level1) {
            if has_prefix_at(&v, lo, hi, &release) {
                let value = string_of(&v, lo + 7, hi);
                assert(line.skip(7) =~= value@);
                match parse_version(value.as_str()) {
                    Ok(version) => {
                        proof {
                            starts = starts.push((lo as int, version@));
                        }
                        offsets.push(lo);
                        versions.push(version);
                    },
                    Err(cause) => {
                        proof {
                            lemma_scan_error_persists(lines, k + 1);
                            assert(lines.take(lines.len() as int) =~= lines);
                        }
                        return Err(ChangelogError::InvalidVersion { value, cause });
                    },
                }
            } else {
                let text = string_of(&v, lo, hi);
                proof {
                    lemma_scan_error_persists(lines, k + 1);
                }
                return Err(ChangelogError::InvalidHeading { line: text });
            }
        } else if has_prefix_at(&v, lo, hi, &hash) && !has_prefix_at(&v, lo, hi, &level2) {
            let text = string_of(&v, lo, hi);
            proof {
                lemma_scan_error_persists(lines, k + 1);
            }
            return Err(ChangelogError::InvalidHeading { line: text });
        }
        k = k + 1;
    }
    assert(lines.take(lines.len() as int) =~= lines);
    if offsets.len() == 0 {
        return Err(ChangelogError::NoSections);
    }
    let count = offsets.len();
    let mut i: usize = 0;
    while i + 1 < count
        invariant
            count == offsets.len(),
            count == versions.len(),
            count == starts.len(),
            count > 0,
            i + 1 <= count,
            scan_headings(spec_lines(source@)) == Ok::<_, ChangelogErrorView>(starts),
            forall|m: int|
                #![trigger starts[m]]
                0 <= m < starts.len() ==> starts[m] == (offsets[m] as int, versions[m]@),
            forall|m: int| 0 <= m < i ==> !semver_le(starts[m].1, #[trigger] starts[m + 1].1),
            forall|m: int| 0 <= m < i ==> starts[m].1 != #[trigger] starts[m + 1].1,
        decreases count - i,
    {
        if version_le(&versions[i], &versions[i + 1]) {
            assert(starts[i as int].1 == versions[i as int]@);
            assert(starts[i + 1].1 == versions[i + 1]@);
            assert(semver_le(starts[i as int].1, starts[i + 1].1));
            assert(!newest_first(starts));
            return Err(ChangelogError::NotNewestFirst);
        }
        assert(starts[i as int].1 == versions[i as int]@);
        assert(starts[i + 1].1 == versions[i + 1]@);
        i = i + 1;
    }
    assert(newest_first(starts));
    let expected_version = match parse_version(expected) {
        Ok(ev) => ev,
        Err(cause) => {
            return Err(ChangelogError::InvalidExpectedVersion { cause });
        },
    };
    if !versions_equal(&versions[0], &expected_version) {
        assert(starts[0].1 == versions[0]@);
        return Err(ChangelogError::VersionMismatch { expected: expected.to_owned() });
    }
    assert(starts[0].1 == versions[0]@);
    let ghost target = spec_sections(s, starts);
    let mut sections: Vec<Section> = Vec::new();
    let mut j: usize = 0;
    while j < count
        invariant
            s == v@,
            count == offsets.len(),
            count == starts.len(),
            versions.len() == count - j,
            j <= count,
            target == spec_sections(s, starts),
            scan_headings(spec_lines(source@)) == Ok::<_, ChangelogErrorView>(starts),
            s == source@,
            forall|m: int| 0 <= m < count - 1 ==> starts[m].1 != #[trigger] starts[m + 1].1,
            forall|m: int|
                #![trigger starts[m]]
                0 <= m < starts.len() ==> starts[m].0 == offsets[m] as int,
            forall|m: int|
                #![trigger versions@[m]]
                0 <= m < versions.len() ==> starts[j + m].1 == versions[m]@,
            forall|m: int| #![trigger offsets@[m]] 0 <= m < offsets.len() ==> offsets[m] < v.len(),
            forall|m: int, q: int|
                #![trigger offsets@[m], offsets@[q]]
                0 <= m < q < offsets.len() ==> offsets[m] < offsets[q],
            sections.len() == j,
            forall|m: int| #![trigger sections@[m]] 0 <= m < j ==> sections@[m]@ == target[m],
        decreases count - j,
    {
        let lo = offsets[j];
        let hi = if j + 1 < count {
            offsets[j + 1]
        } else {
            v.len()
        };
        assert(hi as int == section_end(s.len() as int, starts, j as int));
        let e = trim_end_index(&v, lo, hi);
        let markdown = string_of(&v, lo, e);
        let version = versions.remove(0);
        assert(starts[j as int].1 == version@);
        sections.push(Section { version, markdown });
        j = j + 1;
    }
    assert(sections_view(sections@) =~= target);
    assert forall|i: int| 0 <= i < sections.len() - 1 implies sections[i].version@ != #[trigger] sections[i
        + 1].version@ by {
        assert(sections@[i]@ == target[i]);
        assert(sections@[i + 1]@ == target[i + 1]);
    }
    Ok(sections)
}

} // verus!

verus! {

/// What a successful parse promises: at least one section, the first one is
/// the expected version, and each section is strictly newer than the next.
pub proof fn lemma_parsed_sections_newest_first(src: Seq<char>, expected: Seq<char>)
    requires
        spec_parse(src, expected) is Ok,
    ensures
        ({
            let sections = spec_parse(src, expected)->Ok_0;
            &&& sections.len() > 0
            &&& spec_semver_parse(expected) == Some(sections[0].version)
            &&& forall|i: int|
                0 <= i < sections.len() - 1 ==> !semver_le(
                    sections[i].version,
                    #[trigger] sections[i + 1].version,
                )
        }),
{
    let starts = scan_headings(spec_lines(src))->Ok_0;
    let sections = spec_sections(src, starts);
    assert forall|i: int| 0 <= i < sections.len() - 1 implies !semver_le(
        sections[i].version,
        #[trigger] sections[i + 1].version,
    ) by {
        assert(sections[i].version == starts[i].1);
        assert(sections[i + 1].version == starts[i + 1].1);
    }
}

} // verus!

verus! {

// ---------------------------------------------------------------------------
// Wrapping markdown for the terminal viewer
// ---------------------------------------------------------------------------

/// `t` without one trailing carriage return.
pub open spec fn strip_cr(t: Seq<char>) -> Seq<char> {
    if t.len() > 0 && t.last() == '\r' {
        t.drop_last()
    } else {
        t
    }
}

/// The lines of `s` as `str::lines` yields them, scanning from `i` with the
/// current line starting at `start`: split at `\n`, one `\r` before a `\n`
/// removed, no empty line after a final `\n`.
pub open spec fn text_lines_from(s: Seq<char>, start: int, i: int) -> Seq<Seq<char>>
    decreases s.len() - i,
{
    if i >= s.len() {
        if start < s.len() {
            seq![s.subrange(start, s.len() as int)]
        } else {
            seq![]
        }
    } else if s[i] == '\n' {
        seq![strip_cr(s.subrange(start, i))] + text_lines_from(s, i + 1, i + 1)
    } else {
        text_lines_from(s, start, i + 1)
    }
}

/// The lines of `s` (`str::lines`).
pub open spec fn text_lines(s: Seq<char>) -> Seq<Seq<char>> {
    text_lines_from(s, 0, 0)
}

/// The number of bytes of `c` in UTF-8.
pub open spec fn utf8_width(c: char) -> nat {
    let u = c as u32;
    if u < 0x80 {
        1
    } else if u < 0x800 {
        2
    } else if u < 0x10000 {
        3
    } else {
        4
    }
}

/// The byte position of character `j` of `s` in its UTF-8 encoding.
pub open spec fn byte_offset(s: Seq<char>, j: int) -> nat
    decreases j,
{
    if j <= 0 {
        0
    } else {
        byte_offset(s, j - 1) + utf8_width(s[j - 1])
    }
}

/// The last white-space character among `rest[..n]` whose byte position is at
/// most `w`, or -1.
pub open spec fn last_break(rest: Seq<char>, w: nat, n: int) -> int
    decreases n,
{
    if n <= 0 {
        -1
    } else if is_white_space(rest[n - 1]) && byte_offset(rest, n - 1) <= w {
        n - 1
    } else {
        last_break(rest, w, n - 1)
    }
}

/// Where an over-long line is split: at the last white space whose byte
/// position is at most the width, else after `w` characters.
pub open spec fn split_point(rest: Seq<char>, w: nat) -> int {
    let b = last_break(rest, w, rest.len() as int);
    if b >= 0 {
        b
    } else {
        w as int
    }
}

/// `last_break` is -1 or a white-space position below `n` within the width.
pub proof fn lemma_last_break_range(rest: Seq<char>, w: nat, n: int)
    ensures
        -1 <= last_break(rest, w, n) < n || (n <= 0 && last_break(rest, w, n) == -1),
        last_break(rest, w, n) >= 0 ==> is_white_space(rest[last_break(rest, w, n)])
            && byte_offset(rest, last_break(rest, w, n)) <= w,
    decreases n,
{
    if n > 0 {
        lemma_last_break_range(rest, w, n - 1);
    }
}

/// Every character takes one to four bytes.
pub proof fn lemma_byte_offset_at_least_index(s: Seq<char>, j: int)
    requires
        j >= 0,
    ensures
        byte_offset(s, j) >= j,
        byte_offset(s, j) <= 4 * j,
    decreases j,
{
    if j > 0 {
        lemma_byte_offset_at_least_index(s, j - 1);
    }
}

/// A line too long for the width loses at least one character per split.
pub proof fn lemma_wrap_progress(rest: Seq<char>, w: nat)
    requires
        w >= 1,
        rest.len() > w,
    ensures
        0 <= split_point(rest, w) <= w,
        trim_start(rest.skip(split_point(rest, w))).len() < rest.len(),
        trim_end(rest.take(split_point(rest, w))).len() <= w,
{
    let k = split_point(rest, w);
    let b = last_break(rest, w, rest.len() as int);
    lemma_last_break_range(rest, w, rest.len() as int);
    if b >= 0 {
        lemma_byte_offset_at_least_index(rest, b);
    }
    crate::text::lemma_trim_start_suffix(rest.skip(k));
    crate::text::lemma_trim_end_prefix(rest.take(k));
    if k == 0 {
        assert(is_white_space(rest[0]));
        assert(rest.skip(0) =~= rest);
        crate::text::lemma_trim_start_suffix(rest.drop_first());
    }
}

/// The pieces of one line wrapped at width `w` (at least 1).
pub open spec fn wrap_rest(rest: Seq<char>, w: nat) -> Seq<Seq<char>>
    decreases rest.len(),
{
    if w == 0 || rest.len() <= w {
        seq![rest]
    } else {
        let k = split_point(rest, w);
        proof {
            lemma_wrap_progress(rest, w);
        }
        seq![trim_end(rest.take(k))] + wrap_rest(trim_start(rest.skip(k)), w)
    }
}

/// The wrapped pieces of all `lines`, in order.
pub open spec fn wrap_all(lines: Seq<Seq<char>>, w: nat) -> Seq<Seq<char>>
    decreases lines.len(),
{
    if lines.len() == 0 {
        seq![]
    } else {
        wrap_all(lines.drop_last(), w) + wrap_rest(lines.last(), w)
    }
}

/// The terminal lines of `markdown` wrapped to `width` columns (at least one).
pub open spec fn spec_wrapped_lines(markdown: Seq<char>, width: nat) -> Seq<Seq<char>> {
    wrap_all(text_lines(markdown), if width == 0 {
        1
    } else {
        width
    })
}

/// No wrapped piece is longer than the width.
pub proof fn lemma_wrap_rest_fits(rest: Seq<char>, w: nat)
    requires
        w >= 1,
    ensures
        forall|i: int| 0 <= i < wrap_rest(rest, w).len() ==> #[trigger] wrap_rest(rest, w)[i].len()
            <= w,
    decreases rest.len(),
{
    if rest.len() > w {
        lemma_wrap_progress(rest, w);
        let k = split_point(rest, w);
        let next = trim_start(rest.skip(k));
        lemma_wrap_rest_fits(next, w);
        let out = wrap_rest(rest, w);
        assert forall|i: int| 0 <= i < out.len() implies #[trigger] out[i].len() <= w by {
            if i > 0 {
                assert(out[i] == wrap_rest(next, w)[i - 1]);
            }
        }
    }
}

/// No wrapped line is longer than the width.
pub proof fn lemma_wrap_all_fits(lines: Seq<Seq<char>>, w: nat)
    requires
        w >= 1,
    ensures
        forall|i: int| 0 <= i < wrap_all(lines, w).len() ==> #[trigger] wrap_all(lines, w)[i].len()
            <= w,
    decreases lines.len(),
{
    if lines.len() > 0 {
        lemma_wrap_all_fits(lines.drop_last(), w);
        lemma_wrap_rest_fits(lines.last(), w);
        let a = wrap_all(lines.drop_last(), w);
        let b = wrap_rest(lines.last(), w);
        assert forall|i: int| 0 <= i < (a + b).len() implies #[trigger] (a + b)[i].len() <= w by {
            if i >= a.len() {
                assert((a + b)[i] == b[i - a.len()]);
            } else {
                assert((a + b)[i] == a[i]);
            }
        }
    }
}

/// The number of UTF-8 bytes of `c`.
fn utf8_width_of(c: char) -> (n: u8)
    ensures
        n as nat == utf8_width(c),
{
    let u = c as u32;
    if u < 0x80 {
        1
    } else if u < 0x800 {
        2
    } else if u < 0x10000 {
        3
    } else {
        4
    }
}

/// The lines of `v` (`str::lines`), as spans into `v`.
fn text_line_spans(v: &Vec<char>) -> (spans: Vec<(usize, usize)>)
    ensures
        spans.len() == text_lines(v@).len(),
        forall|k: int|
            #![trigger spans@[k]]
            0 <= k < spans.len() ==> {
                &&& spans[k].0 <= spans[k].1 <= v.len()
                &&& text_lines(v@)[k] == v@.subrange(spans[k].0 as int, spans[k].1 as int)
            },
{
    let ghost s = v@;
    let n = v.len();
    let mut spans: Vec<(usize, usize)> = Vec::new();
    let ghost mut acc: Seq<Seq<char>> = seq![];
    let mut start: usize = 0;
    let mut i: usize = 0;
    while i < n
        invariant
            n == v.len(),
            s == v@,
            start <= i <= n,
            acc.len() == spans.len(),
            text_lines(s) == acc + text_lines_from(s, start as int, i as int),
            forall|k: int|
                #![trigger spans@[k]]
                0 <= k < spans.len() ==> {
                    &&& spans[k].0 <= spans[k].1 <= n
                    &&& acc[k] == s.subrange(spans[k].0 as int, spans[k].1 as int)
                },
        decreases n - i,
    {
        if v[i] == '\n' {
            let e = if i > start && v[i - 1] == '\r' {
                i - 1
            } else {
                i
            };
            let ghost line = s.subrange(start as int, e as int);
            assert(strip_cr(s.subrange(start as int, i as int)) =~= line);
            assert(text_lines_from(s, start as int, i as int) == seq![line] + text_lines_from(
                s,
                i + 1,
                i + 1,
            ));
            assert(acc + text_lines_from(s, start as int, i as int) =~= acc.push(line)
                + text_lines_from(s, i + 1, i + 1));
            spans.push((start, e));
            proof {
                acc = acc.push(line);
            }
            start = i + 1;
        } else {
            assert(text_lines_from(s, start as int, i as int) == text_lines_from(
                s,
                start as int,
                i + 1,
            ));
        }
        i = i + 1;
    }
    if start < n {
        let ghost line = s.subrange(start as int, n as int);
        assert(text_lines_from(s, start as int, n as int) == seq![line]);
        spans.push((start, n));
        proof {
            acc = acc.push(line);
        }
    } else {
        assert(text_lines_from(s, start as int, n as int) == Seq::<Seq<char>>::empty());
    }
    assert(text_lines(s) =~= acc);
    spans
}

/// The split point of `v[lo..hi]` for width `w`, which it exceeds.
fn find_split(v: &Vec<char>, lo: usize, hi: usize, w: usize) -> (k: usize)
    requires
        lo <= hi <= v.len(),
        w >= 1,
        hi - lo > w,
    ensures
        k as int == split_point(v@.subrange(lo as int, hi as int), w as nat),
{
    let ghost rest = v@.subrange(lo as int, hi as int);
    let m = hi - lo;
    let mut bo: u128 = 0;
    let mut found = false;
    let mut best: usize = 0;
    let mut k: usize = 0;
    while k < m
        invariant
            lo <= hi <= v.len(),
            m == hi - lo,
            rest == v@.subrange(lo as int, hi as int),
            k <= m,
            bo == byte_offset(rest, k as int),
            bo <= 4 * k,
            found ==> best as int == last_break(rest, w as nat, k as int),
            !found ==> last_break(rest, w as nat, k as int) == -1,
        decreases m - k,
    {
        let c = v[lo + k];
        assert(c == rest[k as int]);
        if bo <= w as u128 && char_is_whitespace(c) {
            found = true;
            best = k;
        }
        bo = bo + utf8_width_of(c) as u128;
        k = k + 1;
    }
    if found {
        best
    } else {
        w
    }
}

/// The markdown's lines wrapped to `width` columns (at least one) for the
/// terminal viewer. An over-long line is split at its last white space that
/// starts within the width (counted in bytes), else after `width`
/// characters; white space around a split is dropped.
pub fn wrapped_lines(markdown: &str, width: usize) -> (output: Vec<String>)
    ensures
        output@.map_values(|l: String| l@) == spec_wrapped_lines(markdown@, width as nat),
        forall|i: int| 0 <= i < output.len() ==> #[trigger] output[i]@.len() <= if width == 0 {
            1
        } else {
            width as nat
        },
{
    let w: usize = if width == 0 {
        1
    } else {
        width
    };
    let v = chars_of(markdown);
    let spans = text_line_spans(&v);
    let ghost lines = text_lines(v@);
    let mut output: Vec<String> = Vec::new();
    let mut j: usize = 0;
    while j < spans.len()
        invariant
            w >= 1,
            lines == text_lines(v@),
            spans.len() == lines.len(),
            forall|k: int|
                #![trigger spans@[k]]
                0 <= k < spans.len() ==> {
                    &&& spans[k].0 <= spans[k].1 <= v.len()
                    &&& lines[k] == v@.subrange(spans[k].0 as int, spans[k].1 as int)
                },
            j <= spans.len(),
            output@.map_values(|l: String| l@) == wrap_all(lines.take(j as int), w as nat),
        decreases spans.len() - j,
    {
        let (lo0, hi) = spans[j];
        let mut lo = lo0;
        let ghost before = output@.map_values(|l: String| l@);
        let ghost line = lines[j as int];
        assert(line == v@.subrange(lo0 as int, hi as int));
        while hi - lo > w
            invariant
                w >= 1,
                lo0 <= lo <= hi <= v.len(),
                output@.map_values(|l: String| l@) + wrap_rest(
                    v@.subrange(lo as int, hi as int),
                    w as nat,
                ) == before + wrap_rest(line, w as nat),
            decreases hi - lo,
        {
            let ghost rest = v@.subrange(lo as int, hi as int);
            let k = find_split(&v, lo, hi, w);
            proof {
                lemma_wrap_progress(rest, w as nat);
            }
            let e = trim_end_index(&v, lo, lo + k);
            assert(rest.take(k as int) =~= v@.subrange(lo as int, lo + k));
            assert(rest.skip(k as int) =~= v@.subrange(lo + k, hi as int));
            let piece = string_of(&v, lo, e);
            let ghost old_out = output@.map_values(|l: String| l@);
            output.push(piece);
            assert(output@.map_values(|l: String| l@) =~= old_out.push(piece@));
            let next = crate::text::trim_start_index(&v, lo + k, hi);
            assert(wrap_rest(rest, w as nat) == seq![trim_end(rest.take(k as int))] + wrap_rest(
                v@.subrange(next as int, hi as int),
                w as nat,
            ));
            assert(old_out.push(piece@) + wrap_rest(v@.subrange(next as int, hi as int), w as nat)
                =~= old_out + wrap_rest(rest, w as nat));
            lo = next;
        }
        let ghost old_out = output@.map_values(|l: String| l@);
        let last = string_of(&v, lo, hi);
        output.push(last);
        assert(output@.map_values(|l: String| l@) =~= old_out.push(last@));
        assert(wrap_rest(v@.subrange(lo as int, hi as int), w as nat) == seq![last@]);
        assert(old_out.push(last@) =~= old_out + seq![last@]);
        assert(lines.take(j + 1).drop_last() =~= lines.take(j as int));
        assert(lines.take(j + 1).last() == line);
        j = j + 1;
    }
    assert(lines.take(lines.len() as int) =~= lines);
    proof {
        lemma_wrap_all_fits(lines, w as nat);
        assert forall|i: int| 0 <= i < output.len() implies #[trigger] output[i]@.len() <= w by {
            assert(output@.map_values(|l: String| l@)[i] == output[i]@);
        }
    }
    output
}

} // verus!

verus! {

// ---------------------------------------------------------------------------
// Viewer state and decisions
// ---------------------------------------------------------------------------

/// Selected section and scroll position of the interactive changelog viewer.
pub struct ViewerState {
    /// Index of the shown section; 0 is the newest.
    pub section: usize,
    /// Index of the first wrapped line shown.
    pub scroll: usize,
}

impl Default for ViewerState {
    fn default() -> (r: Self)
        ensures
            r.section == 0,
            r.scroll == 0,
    {
        ViewerState { section: 0, scroll: 0 }
    }
}

/// `a + d` for an unsigned `a` and a signed `d`, held within `0..=usize::MAX`
/// (`usize::saturating_add_signed`).
pub open spec fn saturating_add_signed(a: usize, d: int) -> int {
    let r = a + d;
    if r < 0 {
        0
    } else if r > usize::MAX {
        usize::MAX as int
    } else {
        r
    }
}

/// The smaller of two integers.
pub open spec fn min_int(a: int, b: int) -> int {
    if a <= b {
        a
    } else {
        b
    }
}

/// A key as the viewer reads it.
pub enum ViewerKey {
    Char(char),
    Esc,
    Left,
    Right,
    Up,
    Down,
    PageUp,
    PageDown,
    Home,
    End,
    Other,
}

/// A terminal event as the viewer reads it.
pub enum ViewerEvent {
    Resize,
    Key { code: ViewerKey, pressed: bool },
    Other,
}

/// The screen layout for one frame: rows for markdown and the largest scroll.
pub struct ViewerLayout {
    pub body_height: usize,
    pub max_scroll: usize,
}

/// Whether the changelog is browsed interactively: only when both standard
/// output and standard input are terminals; otherwise the newest section is
/// printed.
pub fn should_browse_interactively(stdout_is_terminal: bool, stdin_is_terminal: bool) -> (r: bool)
    ensures
        r == (stdout_is_terminal && stdin_is_terminal),
{
    stdout_is_terminal && stdin_is_terminal
}

/// Three rows are reserved for the title, a gap and the key help; the
/// markdown can be scrolled until its last line is on the last body row.
pub fn viewer_layout(height: u16, line_count: usize) -> (r: ViewerLayout)
    ensures
        r.body_height == if height >= 3 {
            height - 3
        } else {
            0
        },
        r.max_scroll == if line_count >= r.body_height {
            line_count - r.body_height
        } else {
            0
        },
{
    let body_height: usize = if height >= 3 {
        (height - 3) as usize
    } else {
        0
    };
    let max_scroll = if line_count >= body_height {
        line_count - body_height
    } else {
        0
    };
    ViewerLayout { body_height, max_scroll }
}

/// The state after one event, as `handle_event` leaves it.
///
/// Left shows the next older section and Right the next newer one, both
/// from the top; Up and Down scroll one line, PageUp and PageDown one body
/// height, within `0..=max_scroll`; Home and End scroll to the top and
/// bottom. Key releases, other keys (quitting among them), resizes and other
/// events change nothing.
pub open spec fn spec_handle_event(
    s: ViewerState,
    event: ViewerEvent,
    count: usize,
    layout: ViewerLayout,
) -> ViewerState {
    let scrolled = |d: int|
        ViewerState {
            section: s.section,
            scroll: min_int(saturating_add_signed(s.scroll, d), layout.max_scroll as int) as usize,
        };
    match event {
        ViewerEvent::Key { code, pressed: true } => match code {
            ViewerKey::Left => ViewerState {
                section: min_int(
                    s.section + 1,
                    if count >= 1 {
                        count - 1
                    } else {
                        0
                    },
                ) as usize,
                scroll: 0,
            },
            ViewerKey::Right => ViewerState {
                section: if s.section >= 1 {
                    (s.section - 1) as usize
                } else {
                    0
                },
                scroll: 0,
            },
            ViewerKey::Up => scrolled(-1),
            ViewerKey::Down => scrolled(1),
            ViewerKey::PageUp => scrolled(-(layout.body_height as int)),
            ViewerKey::PageDown => scrolled(layout.body_height as int),
            ViewerKey::Home => ViewerState { section: s.section, scroll: 0 },
            ViewerKey::End => ViewerState { section: s.section, scroll: layout.max_scroll },
            _ => s,
        },
        _ => s,
    }
}

/// The state as it is drawn: the scroll kept within `0..=max_scroll`.
pub open spec fn spec_clamped(s: ViewerState, max_scroll: usize) -> ViewerState {
    ViewerState { section: s.section, scroll: min_int(s.scroll as int, max_scroll as int) as usize }
}

/// The state drawn in frame `n` while browsing `count` sections from the
/// newest one: frame `i` is drawn with layout `frames[i].0` (its scroll
/// clamped first) and is followed by event `frames[i].1`.
pub open spec fn drawn_state(count: usize, frames: Seq<(ViewerLayout, ViewerEvent)>, n: nat) -> ViewerState
    decreases n,
{
    if n == 0 {
        spec_clamped(ViewerState { section: 0, scroll: 0 }, frames[0].0.max_scroll)
    } else {
        let shown = drawn_state(count, frames, (n - 1) as nat);
        spec_clamped(
            spec_handle_event(shown, frames[n - 1].1, count, frames[n - 1].0),
            frames[n as int].0.max_scroll,
        )
    }
}

/// What each pressed key does, in plain arithmetic: Up and Down move the
/// scroll by one line and PageUp and PageDown by one body height, never
/// above the top nor past `max_scroll`, keeping the section; Left shows the
/// next older section and Right the next newer one, each from the top;
/// Home and End go to the top and to `max_scroll`. Releases, other keys and
/// other events change nothing.
pub proof fn lemma_viewer_keys(s: ViewerState, count: usize, layout: ViewerLayout, pressed: bool)
    requires
        s.scroll <= layout.max_scroll,
    ensures
        ({
            let key = |code: ViewerKey| spec_handle_event(s, ViewerEvent::Key { code, pressed: true }, count, layout);
            let bh = layout.body_height as int;
            let max = layout.max_scroll as int;
            let up_to = |target: int| if target < 0 { 0 } else if target > max { max } else { target };
            &&& key(ViewerKey::Up).section == s.section
            &&& key(ViewerKey::Up).scroll == up_to(s.scroll - 1)
            &&& key(ViewerKey::Down).section == s.section
            &&& key(ViewerKey::Down).scroll == up_to(s.scroll + 1)
            &&& key(ViewerKey::PageUp).section == s.section
            &&& key(ViewerKey::PageUp).scroll == up_to(s.scroll - bh)
            &&& key(ViewerKey::PageDown).section == s.section
            &&& key(ViewerKey::PageDown).scroll == up_to(s.scroll + bh)
            &&& key(ViewerKey::Home) == ViewerState { section: s.section, scroll: 0 }
            &&& key(ViewerKey::End) == ViewerState { section: s.section, scroll: layout.max_scroll }
            &&& count >= 1 && s.section < count ==> key(ViewerKey::Left) == ViewerState {
                section: if s.section + 1 < count { (s.section + 1) as usize } else { s.section },
                scroll: 0,
            }
            &&& key(ViewerKey::Right) == ViewerState {
                section: if s.section > 0 { (s.section - 1) as usize } else { 0 },
                scroll: 0,
            }
            &&& key(ViewerKey::Char('q')) == s
            &&& key(ViewerKey::Esc) == s
            &&& key(ViewerKey::Other) == s
            &&& !pressed ==> spec_handle_event(s, ViewerEvent::Key { code: ViewerKey::PageUp, pressed }, count, layout) == s
            &&& spec_handle_event(s, ViewerEvent::Resize, count, layout) == s
        }),
{
}

/// A page down and a page up cancel out away from the ends: from a scroll
/// at least one body height from both ends, PageDown then PageUp comes
/// back to it, and so do Down then Up.
pub proof fn lemma_viewer_pages_cancel(s: ViewerState, count: usize, layout: ViewerLayout)
    requires
        s.scroll >= layout.body_height,
        s.scroll + layout.body_height <= layout.max_scroll,
    ensures
        spec_handle_event(
            spec_handle_event(s, ViewerEvent::Key { code: ViewerKey::PageDown, pressed: true }, count, layout),
            ViewerEvent::Key { code: ViewerKey::PageUp, pressed: true },
            count,
            layout,
        ) == s,
        spec_handle_event(
            spec_handle_event(s, ViewerEvent::Key { code: ViewerKey::PageUp, pressed: true }, count, layout),
            ViewerEvent::Key { code: ViewerKey::PageDown, pressed: true },
            count,
            layout,
        ) == s,
{
}

/// While browsing a changelog of at least one section, every frame shows a
/// section that exists, scrolled no further than its layout allows,
/// whatever the terminal sizes and the keys pressed.
pub proof fn lemma_viewer_draws_in_bounds(
    count: usize,
    frames: Seq<(ViewerLayout, ViewerEvent)>,
    n: nat,
)
    requires
        count >= 1,
        n < frames.len(),
    ensures
        drawn_state(count, frames, n).section < count,
        drawn_state(count, frames, n).scroll <= frames[n as int].0.max_scroll,
    decreases n,
{
    if n > 0 {
        lemma_viewer_draws_in_bounds(count, frames, (n - 1) as nat);
    }
}

impl ViewerState {
    /// Moves to the next older section, staying on the last one, and scrolls to the top.
    pub fn older(&mut self, count: usize)
        requires
            old(self).section < usize::MAX,
        ensures
            final(self).section == min_int(
                old(self).section + 1,
                if count >= 1 {
                    count - 1
                } else {
                    0
                },
            ),
            final(self).scroll == 0,
    {
        let last = if count >= 1 {
            count - 1
        } else {
            0
        };
        let next = self.section + 1;
        self.section = if next <= last {
            next
        } else {
            last
        };
        self.scroll = 0;
    }

    /// Moves to the next newer section, staying on the newest, and scrolls to the top.
    pub fn newer(&mut self)
        ensures
            final(self).section == if old(self).section >= 1 {
                old(self).section - 1
            } else {
                0
            },
            final(self).scroll == 0,
    {
        self.section = if self.section >= 1 {
            self.section - 1
        } else {
            0
        };
        self.scroll = 0;
    }

    /// Scrolls by `delta` lines, staying within `0..=max`.
    pub fn scroll_by(&mut self, delta: isize, max: usize)
        ensures
            final(self).scroll == min_int(saturating_add_signed(old(self).scroll, delta as int), max as int),
            final(self).section == old(self).section,
    {
        let moved: usize = if delta >= 0 {
            let d = delta as usize;
            if self.scroll <= usize::MAX - d {
                self.scroll + d
            } else {
                usize::MAX
            }
        } else {
            let d: u128 = (0i128 - delta as i128) as u128;
            if self.scroll as u128 > d {
                (self.scroll as u128 - d) as usize
            } else {
                0
            }
        };
        self.scroll = if moved <= max {
            moved
        } else {
            max
        };
    }

    /// Keeps the scroll position within `0..=max`.
    pub fn clamp_scroll(&mut self, max: usize)
        ensures
            final(self).scroll == min_int(old(self).scroll as int, max as int),
            final(self).section == old(self).section,
            *final(self) == spec_clamped(*old(self), max),
    {
        if self.scroll > max {
            self.scroll = max;
        }
    }

    /// Applies one terminal event; returns whether the viewer quits.
    ///
    /// `q` and Esc quit; Left shows the next older section and Right the next
    /// newer one; Up and Down scroll one line, PageUp and PageDown one body
    /// height; Home and End scroll to the top and bottom. Key releases,
    /// resizes and other events change nothing.
    pub fn handle_event(
        &mut self,
        event: ViewerEvent,
        section_count: usize,
        layout: ViewerLayout,
    ) -> (quit: bool)
        requires
            old(self).section < usize::MAX,
            layout.body_height <= isize::MAX,
        ensures
            quit == (event matches ViewerEvent::Key { code, pressed } && pressed && (code
                == ViewerKey::Char('q') || code == ViewerKey::Esc)),
            quit ==> *final(self) == *old(self),
            *final(self) == spec_handle_event(*old(self), event, section_count, layout),
            old(self).section < section_count ==> final(self).section < section_count,
            old(self).scroll <= layout.max_scroll ==> final(self).scroll <= layout.max_scroll,
    {
        match event {
            ViewerEvent::Key { code, pressed } => {
                if !pressed {
                    return false;
                }
                match code {
                    ViewerKey::Char(c) => {
                        return c == 'q';
                    },
                    ViewerKey::Esc => {
                        return true;
                    },
                    ViewerKey::Left => self.older(section_count),
                    ViewerKey::Right => self.newer(),
                    ViewerKey::Up => self.scroll_by(-1, layout.max_scroll),
                    ViewerKey::Down => self.scroll_by(1, layout.max_scroll),
                    ViewerKey::PageUp => self.scroll_by(
                        -(layout.body_height as isize),
                        layout.max_scroll,
                    ),
                    ViewerKey::PageDown => self.scroll_by(
                        layout.body_height as isize,
                        layout.max_scroll,
                    ),
                    ViewerKey::Home => self.scroll = 0,
                    ViewerKey::End => self.scroll = layout.max_scroll,
                    ViewerKey::Other => {},
                }
                false
            },
            _ => false,
        }
    }
}

// ---------------------------------------------------------------------------
// Frame text
// ---------------------------------------------------------------------------

/// The first `width` characters of `value`.
pub fn truncate(value: &str, width: usize) -> (r: String)
    ensures
        r@ == value@.take(min_int(width as int, value@.len() as int)),
{
    let v = chars_of(value);
    let n = if width <= v.len() {
        width
    } else {
        v.len()
    };
    let r = string_of(&v, 0, n);
    assert(v@.subrange(0, n as int) =~= value@.take(n as int));
    r
}

/// The markdown rows of one frame: the wrapped lines from `scroll` on, as
/// many as the body holds, each cut to the terminal width.
pub fn visible_rows(lines: &Vec<String>, scroll: usize, height: u16, width: u16) -> (rows: Vec<String>)
    ensures
        ({
            let body = if height >= 3 {
                height - 3
            } else {
                0
            };
            let first = min_int(scroll as int, lines.len() as int);
            let count = min_int(body as int, lines.len() - first);
            &&& rows.len() == count
            &&& forall|i: int|
                0 <= i < count ==> #[trigger] rows[i]@ == lines[first + i]@.take(
                    min_int(width as int, lines[first + i]@.len() as int),
                )
        }),
{
    let body: usize = if height >= 3 {
        (height - 3) as usize
    } else {
        0
    };
    let first = if scroll <= lines.len() {
        scroll
    } else {
        lines.len()
    };
    let count = if body <= lines.len() - first {
        body
    } else {
        lines.len() - first
    };
    let mut rows: Vec<String> = Vec::new();
    let mut i: usize = 0;
    while i < count
        invariant
            first <= lines.len(),
            count <= lines.len() - first,
            i <= count,
            rows.len() == i,
            forall|m: int|
                0 <= m < i ==> #[trigger] rows[m]@ == lines[first + m]@.take(
                    min_int(width as int, lines[first + m]@.len() as int),
                ),
        decreases count - i,
    {
        let row = truncate(lines[first + i].as_str(), width as usize);
        rows.push(row);
        i = i + 1;
    }
    rows
}

/// The title row text: `UDS changelog — <version>  [<n>/<count>]`.
pub open spec fn spec_viewer_title(version: VersionView, index: nat, count: nat) -> Seq<char> {
    "UDS changelog — "@ + version_text(version) + "  ["@ + decimal(index + 1) + "/"@ + decimal(
        count,
    ) + "]"@
}

/// The title row of a frame, cut to the terminal width.
pub fn viewer_title(version: &ReleaseVersion, index: usize, count: usize, width: u16) -> (r: String)
    requires
        index < count,
    ensures
        r@ == spec_viewer_title(version@, index as nat, count as nat).take(
            min_int(width as int, spec_viewer_title(version@, index as nat, count as nat).len() as int),
        ),
{
    let mut title = String::from_str("UDS changelog — ");
    let text = version.to_text();
    title.append(text.as_str());
    title.append("  [");
    push_decimal(&mut title, (index + 1) as u64);
    title.append("/");
    push_decimal(&mut title, count as u64);
    title.append("]");
    truncate(title.as_str(), width as usize)
}

/// The key help shown on the last row.
pub const VIEWER_HELP: &'static str = "← older  → newer  ↑↓/PgUp/PgDn/Home/End scroll  q/Esc quit";

/// The key-help row, cut to the terminal width; there is none on a terminal
/// of one row.
pub fn viewer_footer(height: u16, width: u16) -> (r: Option<String>)
    ensures
        height > 1 ==> r is Some && r->0@ == VIEWER_HELP@.take(
            min_int(width as int, VIEWER_HELP@.len() as int),
        ),
        height <= 1 ==> r is None,
{
    if height > 1 {
        Some(truncate(VIEWER_HELP, width as usize))
    } else {
        None
    }
}

} // verus!

verus! {

// ---------------------------------------------------------------------------
// Every section begins with its release heading
// ---------------------------------------------------------------------------

/// Each line is the text found at its position, and later lines start after it.
pub open spec fn lines_in_place(lines: Seq<(int, Seq<char>)>, s: Seq<char>) -> bool {
    &&& forall|k: int|
        #![trigger lines[k]]
        0 <= k < lines.len() ==> {
            &&& 0 <= lines[k].0
            &&& lines[k].0 + lines[k].1.len() <= s.len()
            &&& s.subrange(lines[k].0, lines[k].0 + lines[k].1.len()) == lines[k].1
        }
    &&& forall|k: int, j: int|
        #![trigger lines[k], lines[j]]
        0 <= k < j < lines.len() ==> lines[j].0 >= lines[k].0 + lines[k].1.len()
}

proof fn lemma_strip_line_break_prefix(t: Seq<char>)
    ensures
        strip_line_break(t).len() <= t.len(),
        strip_line_break(t) == t.subrange(0, strip_line_break(t).len() as int),
    decreases t.len(),
{
    if t.len() > 0 && (t.last() == '\r' || t.last() == '\n') {
        lemma_strip_line_break_prefix(t.drop_last());
        assert(t.drop_last().subrange(0, strip_line_break(t).len() as int) =~= t.subrange(
            0,
            strip_line_break(t).len() as int,
        ));
    } else {
        assert(t.subrange(0, t.len() as int) =~= t);
    }
}

proof fn lemma_line_in_place(s: Seq<char>, start: int, end: int)
    requires
        0 <= start <= end <= s.len(),
    ensures
        start + strip_line_break(s.subrange(start, end)).len() <= end,
        s.subrange(start, start + strip_line_break(s.subrange(start, end)).len())
            == strip_line_break(s.subrange(start, end)),
{
    let t = s.subrange(start, end);
    lemma_strip_line_break_prefix(t);
    assert(s.subrange(start, start + strip_line_break(t).len()) =~= t.subrange(
        0,
        strip_line_break(t).len() as int,
    ));
}

/// The lines of a text are in place, all at or after where the scan started.
proof fn lemma_lines_from_in_place(s: Seq<char>, start: int, i: int)
    requires
        0 <= start <= i <= s.len(),
    ensures
        lines_in_place(lines_from(s, start, i), s),
        forall|k: int|
            #![trigger lines_from(s, start, i)[k]]
            0 <= k < lines_from(s, start, i).len() ==> lines_from(s, start, i)[k].0 >= start,
    decreases s.len() - i,
{
    let l = lines_from(s, start, i);
    if i >= s.len() {
        if start < s.len() {
            lemma_line_in_place(s, start, s.len() as int);
        }
    } else if s[i] == '\n' {
        lemma_line_in_place(s, start, i + 1);
        lemma_lines_from_in_place(s, i + 1, i + 1);
        let rest = lines_from(s, i + 1, i + 1);
        let first = (start, strip_line_break(s.subrange(start, i + 1)));
        assert(l == seq![first] + rest);
        assert forall|k: int| #![trigger l[k]] 0 <= k < l.len() implies {
            &&& 0 <= l[k].0
            &&& l[k].0 + l[k].1.len() <= s.len()
            &&& s.subrange(l[k].0, l[k].0 + l[k].1.len()) == l[k].1
        } by {
            if k > 0 {
                assert(l[k] == rest[k - 1]);
            }
        }
        assert forall|k: int, j: int| #![trigger l[k], l[j]] 0 <= k < j < l.len() implies l[j].0
            >= l[k].0 + l[k].1.len() by {
            assert(l[j] == rest[j - 1]);
            if k > 0 {
                assert(l[k] == rest[k - 1]);
            }
        }
        assert forall|k: int| #![trigger l[k]] 0 <= k < l.len() implies l[k].0 >= start by {
            if k > 0 {
                assert(l[k] == rest[k - 1]);
            }
        }
    } else {
        lemma_lines_from_in_place(s, start, i + 1);
    }
}

/// What the release headings found among the first `n` lines satisfy: each
/// is a `# UDS v` heading at its position, the next begins at least seven
/// characters later, and every later line begins after the last one.
pub open spec fn headings_in_place(
    starts: Seq<(int, VersionView)>,
    lines: Seq<(int, Seq<char>)>,
    n: int,
    s: Seq<char>,
) -> bool {
    &&& forall|m: int|
        #![trigger starts[m]]
        0 <= m < starts.len() ==> {
            &&& 0 <= starts[m].0
            &&& starts[m].0 + 7 <= s.len()
            &&& s.subrange(starts[m].0, starts[m].0 + 7) == release_prefix()
        }
    &&& forall|m: int|
        #![trigger starts[m]]
        0 <= m < starts.len() - 1 ==> starts[m + 1].0 >= starts[m].0 + 7
    &&& starts.len() > 0 ==> forall|j: int|
        #![trigger lines[j]]
        n <= j < lines.len() ==> lines[j].0 >= starts.last().0 + 7
}

proof fn lemma_scan_headings_in_place(lines: Seq<(int, Seq<char>)>, n: int, s: Seq<char>)
    requires
        0 <= n <= lines.len(),
        lines_in_place(lines, s),
        scan_headings(lines.take(n)) is Ok,
    ensures
        headings_in_place(scan_headings(lines.take(n))->Ok_0, lines, n, s),
    decreases n,
{
    if n > 0 {
        let prev = lines.take(n - 1);
        assert(lines.take(n).drop_last() =~= prev);
        assert(lines.take(n).last() == lines[n - 1]);
        lemma_scan_headings_in_place(lines, n - 1, s);
        let before = scan_headings(prev)->Ok_0;
        let after = scan_headings(lines.take(n))->Ok_0;
        let line = lines[n - 1];
        match classify_line(line.1) {
            LineClass::Release(v) => {
                assert(after == before.push((line.0, v)));
                assert(has_prefix(line.1, release_prefix()));
                assert(s.subrange(line.0, line.0 + 7) =~= line.1.subrange(0, 7)) by {
                    assert(s.subrange(line.0, line.0 + line.1.len()) == line.1);
                }
                assert forall|j: int| #![trigger lines[j]] n <= j < lines.len() implies lines[j].0
                    >= after.last().0 + 7 by {
                    assert(lines[j].0 >= lines[n - 1].0 + lines[n - 1].1.len());
                }
                assert forall|m: int| #![trigger after[m]] 0 <= m < after.len() - 1 implies after[m
                    + 1].0 >= after[m].0 + 7 by {
                    if m + 1 < before.len() {
                        assert(after[m] == before[m]);
                        assert(after[m + 1] == before[m + 1]);
                    } else {
                        assert(after[m] == before.last());
                    }
                }
                assert forall|m: int| #![trigger after[m]] 0 <= m < after.len() implies {
                    &&& 0 <= after[m].0
                    &&& after[m].0 + 7 <= s.len()
                    &&& s.subrange(after[m].0, after[m].0 + 7) == release_prefix()
                } by {
                    if m < before.len() {
                        assert(after[m] == before[m]);
                    }
                }
            },
            _ => {
                assert(after == before);
            },
        }
    }
}

/// Trimming trailing white space keeps every character up to a non-white one.
proof fn lemma_trim_end_keeps(t: Seq<char>, j: int)
    requires
        0 <= j < t.len(),
        !is_white_space(t[j]),
    ensures
        trim_end(t).len() > j,
    decreases t.len(),
{
    if is_white_space(t.last()) {
        lemma_trim_end_keeps(t.drop_last(), j);
    }
}

/// Every parsed section begins with its `# UDS v` release heading.
pub proof fn lemma_sections_begin_with_heading(src: Seq<char>, expected: Seq<char>)
    requires
        spec_parse(src, expected) is Ok,
    ensures
        forall|i: int|
            #![trigger spec_parse(src, expected)->Ok_0[i]]
            0 <= i < spec_parse(src, expected)->Ok_0.len() ==> has_prefix(
                spec_parse(src, expected)->Ok_0[i].markdown,
                release_prefix(),
            ),
{
    let lines = spec_lines(src);
    lemma_lines_from_in_place(src, 0, 0);
    assert(lines.take(lines.len() as int) =~= lines);
    lemma_scan_headings_in_place(lines, lines.len() as int, src);
    let starts = scan_headings(lines)->Ok_0;
    let sections = spec_parse(src, expected)->Ok_0;
    assert(sections == spec_sections(src, starts));
    assert forall|i: int| #![trigger sections[i]] 0 <= i < sections.len() implies has_prefix(
        sections[i].markdown,
        release_prefix(),
    ) by {
        let o = starts[i].0;
        let end = section_end(src.len() as int, starts, i);
        assert(end >= o + 7);
        let t = src.subrange(o, end);
        assert(t.subrange(0, 7) =~= src.subrange(o, o + 7));
        assert(t[6] == 'v');
        lemma_trim_end_keeps(t, 6);
        crate::text::lemma_trim_end_prefix(t);
        assert(trim_end(t).subrange(0, 7) =~= t.subrange(0, 7));
    }
}

// ---------------------------------------------------------------------------
// Each section holds one release heading
// ---------------------------------------------------------------------------

/// Stripping line breaks keeps every character up to one that is no line break.
proof fn lemma_strip_line_break_keeps(t: Seq<char>, j: int)
    requires
        0 <= j < t.len(),
        t[j] != '\r' && t[j] != '\n',
    ensures
        strip_line_break(t).len() > j,
    decreases t.len(),
{
    if t.len() > 0 && (t.last() == '\r' || t.last() == '\n') {
        lemma_strip_line_break_keeps(t.drop_last(), j);
    }
}

/// A line that starts with `# UDS v` keeps it once its line break is stripped.
proof fn lemma_strip_line_break_keeps_heading(t: Seq<char>)
    requires
        has_prefix(t, release_prefix()),
    ensures
        has_prefix(strip_line_break(t), release_prefix()),
{
    assert(t[6] == 'v');
    lemma_strip_line_break_keeps(t, 6);
    lemma_strip_line_break_prefix(t);
    let u = strip_line_break(t);
    assert(u.subrange(0, 7) =~= t.subrange(0, 7));
}

/// The first line scanned from `start`, where the text starts with `# UDS v`,
/// starts there and starts with `# UDS v` too.
proof fn lemma_first_line_heading(s: Seq<char>, start: int, i: int)
    requires
        0 <= start <= i <= s.len(),
        start < s.len(),
        forall|j: int| start <= j < i ==> s[j] != '\n',
        has_prefix(s.skip(start), release_prefix()),
    ensures
        lines_from(s, start, i).len() > 0,
        lines_from(s, start, i)[0].0 == start,
        has_prefix(lines_from(s, start, i)[0].1, release_prefix()),
    decreases s.len() - i,
{
    let r = release_prefix();
    assert forall|j: int| 0 <= j < 7 implies s[start + j] == r[j] by {
        assert(s.skip(start).subrange(0, 7)[j] == r[j]);
    }
    if i >= s.len() {
        let t = s.subrange(start, s.len() as int);
        assert(t.subrange(0, 7) =~= s.skip(start).subrange(0, 7));
        lemma_strip_line_break_keeps_heading(t);
    } else if s[i] == '\n' {
        if i < start + 7 {
            assert(s[start + (i - start)] == r[i - start]);
        }
        let t = s.subrange(start, i + 1);
        assert(t.subrange(0, 7) =~= s.skip(start).subrange(0, 7));
        lemma_strip_line_break_keeps_heading(t);
    } else {
        lemma_first_line_heading(s, start, i + 1);
    }
}

/// A position just after a line feed where the text reads `# UDS v` is the
/// start of a line, and that line starts with `# UDS v`.
proof fn lemma_heading_line_at(s: Seq<char>, start: int, i: int, q: int)
    requires
        0 <= start <= i,
        i <= q - 1,
        q < s.len(),
        s[q - 1] == '\n',
        has_prefix(s.skip(q), release_prefix()),
    ensures
        exists|k: int|
            0 <= k < lines_from(s, start, i).len() && (#[trigger] lines_from(s, start, i)[k]).0 == q
                && has_prefix(lines_from(s, start, i)[k].1, release_prefix()),
    decreases s.len() - i,
{
    let l = lines_from(s, start, i);
    if s[i] == '\n' {
        let rest = lines_from(s, i + 1, i + 1);
        assert(l == seq![(start, strip_line_break(s.subrange(start, i + 1)))] + rest);
        if i == q - 1 {
            lemma_first_line_heading(s, q, q);
            assert(l[1] == rest[0]);
        } else {
            lemma_heading_line_at(s, i + 1, i + 1, q);
            let k = choose|k: int|
                0 <= k < rest.len() && (#[trigger] rest[k]).0 == q && has_prefix(
                    rest[k].1,
                    release_prefix(),
                );
            assert(l[k + 1] == rest[k]);
        }
    } else {
        lemma_heading_line_at(s, start, i + 1, q);
    }
}

/// In a changelog whose headings scan without error, no line is a malformed
/// heading, and every release heading line is among the found headings.
proof fn lemma_scanned_line(lines: Seq<(int, Seq<char>)>, k: int)
    requires
        scan_headings(lines) is Ok,
        0 <= k < lines.len(),
    ensures
        !(classify_line(lines[k].1) is Invalid),
        classify_line(lines[k].1) is Release ==> exists|j: int|
            0 <= j < (scan_headings(lines)->Ok_0).len() && (#[trigger] (scan_headings(
                lines,
            )->Ok_0)[j]).0 == lines[k].0,
    decreases lines.len(),
{
    let prev = lines.drop_last();
    let starts = scan_headings(lines)->Ok_0;
    if k == lines.len() - 1 {
        match classify_line(lines.last().1) {
            LineClass::Release(v) => {
                let before = scan_headings(prev)->Ok_0;
                assert(starts == before.push((lines.last().0, v)));
                assert(starts[before.len() as int].0 == lines[k].0);
            },
            _ => {},
        }
    } else {
        assert(prev[k] == lines[k]);
        lemma_scanned_line(prev, k);
        let before = scan_headings(prev)->Ok_0;
        if classify_line(lines[k].1) is Release {
            let j = choose|j: int| 0 <= j < before.len() && (#[trigger] before[j]).0 == prev[k].0;
            match classify_line(lines.last().1) {
                LineClass::Release(v) => {
                    assert(starts == before.push((lines.last().0, v)));
                    assert(starts[j] == before[j]);
                },
                _ => {
                    assert(starts == before);
                },
            }
        }
    }
}

/// Headings found in place come in strictly increasing positions.
proof fn lemma_starts_increase(starts: Seq<(int, VersionView)>, a: int, b: int)
    requires
        forall|m: int|
            #![trigger starts[m]]
            0 <= m < starts.len() - 1 ==> starts[m + 1].0 >= starts[m].0 + 7,
        0 <= a < b < starts.len(),
    ensures
        starts[a].0 < starts[b].0,
    decreases b - a,
{
    assert(starts[b - 1 + 1].0 >= starts[b - 1].0 + 7);
    if a < b - 1 {
        lemma_starts_increase(starts, a, b - 1);
    }
}

/// A line starting with `# UDS v` starts with `# ` too.
proof fn lemma_release_line_is_level1(x: Seq<char>)
    requires
        has_prefix(x, release_prefix()),
    ensures
        has_prefix(x, level1_prefix()),
{
    assert(x.subrange(0, 7)[0] == x[0]);
    assert(x.subrange(0, 7)[1] == x[1]);
    assert(x.subrange(0, 2) =~= level1_prefix());
}

/// Between the heading of section `i` and where the section ends, no line
/// starts with `# UDS v`.
proof fn lemma_no_heading_inside(src: Seq<char>, starts: Seq<(int, VersionView)>, i: int, q: int)
    requires
        scan_headings(spec_lines(src)) == Ok::<_, ChangelogErrorView>(starts),
        forall|m: int|
            #![trigger starts[m]]
            0 <= m < starts.len() - 1 ==> starts[m + 1].0 >= starts[m].0 + 7,
        0 <= i < starts.len(),
        0 <= starts[i].0 < q < section_end(src.len() as int, starts, i),
        section_end(src.len() as int, starts, i) <= src.len(),
        src[q - 1] == '\n',
    ensures
        !has_prefix(src.skip(q), release_prefix()),
{
    let lines = spec_lines(src);
    if has_prefix(src.skip(q), release_prefix()) {
        lemma_heading_line_at(src, 0, 0, q);
        let k = choose|k: int|
            0 <= k < lines.len() && (#[trigger] lines[k]).0 == q && has_prefix(
                lines[k].1,
                release_prefix(),
            );
        lemma_scanned_line(lines, k);
        lemma_release_line_is_level1(lines[k].1);
        assert(classify_line(lines[k].1) is Release);
        let j = choose|j: int| 0 <= j < starts.len() && (#[trigger] starts[j]).0 == lines[k].0;
        if j < i {
            lemma_starts_increase(starts, j, i);
        } else if j > i + 1 {
            lemma_starts_increase(starts, i + 1, j);
        }
    }
}

/// Each parsed section holds exactly one release heading, its own: after
/// its first line, no line of a section's markdown starts with `# UDS v`.
/// A section thus ends before the next release's heading begins.
pub proof fn lemma_sections_hold_one_heading(src: Seq<char>, expected: Seq<char>)
    requires
        spec_parse(src, expected) is Ok,
    ensures
        forall|i: int, p: int|
            0 <= i < spec_parse(src, expected)->Ok_0.len() && 0 < p < (spec_parse(
                src,
                expected,
            )->Ok_0[i]).markdown.len() && (spec_parse(src, expected)->Ok_0[i]).markdown[p - 1]
                == '\n' ==> !has_prefix(
                #[trigger] (spec_parse(src, expected)->Ok_0[i]).markdown.skip(p),
                release_prefix(),
            ),
{
    let lines = spec_lines(src);
    lemma_lines_from_in_place(src, 0, 0);
    assert(lines.take(lines.len() as int) =~= lines);
    lemma_scan_headings_in_place(lines, lines.len() as int, src);
    let starts = scan_headings(lines)->Ok_0;
    let sections = spec_parse(src, expected)->Ok_0;
    assert(sections == spec_sections(src, starts));
    assert forall|i: int, p: int|
        0 <= i < sections.len() && 0 < p < sections[i].markdown.len() && sections[i].markdown[p
            - 1] == '\n' implies !has_prefix(
        #[trigger] sections[i].markdown.skip(p),
        release_prefix(),
    ) by {
        lemma_section_line_not_heading(src, starts, i, p);
    }
}

/// The markdown of section `i` has no `# UDS v` line at position `p > 0`.
proof fn lemma_section_line_not_heading(src: Seq<char>, starts: Seq<(int, VersionView)>, i: int, p: int)
    requires
        scan_headings(spec_lines(src)) == Ok::<_, ChangelogErrorView>(starts),
        headings_in_place(starts, spec_lines(src), spec_lines(src).len() as int, src),
        0 <= i < starts.len(),
        0 < p < spec_sections(src, starts)[i].markdown.len(),
        spec_sections(src, starts)[i].markdown[p - 1] == '\n',
    ensures
        !has_prefix(spec_sections(src, starts)[i].markdown.skip(p), release_prefix()),
{
    let o = starts[i].0;
    let e = section_end(src.len() as int, starts, i);
    let t = src.subrange(o, e);
    let md = spec_sections(src, starts)[i].markdown;
    assert(md == trim_end(t));
    if i + 1 < starts.len() {
        assert(starts[i + 1].0 >= starts[i].0 + 7);
        assert(starts[i + 1].0 + 7 <= src.len());
    }
    crate::text::lemma_trim_end_prefix(t);
    if has_prefix(md.skip(p), release_prefix()) {
        let q = o + p;
        assert(md[p - 1] == t[p - 1]);
        assert(src[q - 1] == '\n');
        assert(src.skip(q).subrange(0, 7) =~= md.skip(p).subrange(0, 7)) by {
            assert forall|j: int| 0 <= j < 7 implies src.skip(q).subrange(0, 7)[j] == md.skip(
                p,
            ).subrange(0, 7)[j] by {
                assert(md[p + j] == t[p + j]);
            }
        }
        lemma_no_heading_inside(src, starts, i, q);
    }
}

/// The sections are slices of the source, in order, each ending where the
/// next begins, with only the white space at the end of each left out:
/// there are positions `pos`, one per section, where section `i`'s
/// markdown is the text of the source at `pos[i]`, the next section starts
/// after it, everything between is white space, and so is everything after
/// the last section. No section ends in white space.
pub proof fn lemma_sections_are_the_source(src: Seq<char>, expected: Seq<char>)
    requires
        spec_parse(src, expected) is Ok,
    ensures
        exists|pos: Seq<int>|
            {
                let sections = spec_parse(src, expected)->Ok_0;
                &&& #[trigger] pos.len() == sections.len()
                &&& forall|i: int|
                    #![trigger pos[i]]
                    0 <= i < pos.len() ==> {
                        let md = sections[i].markdown;
                        let next = if i + 1 < pos.len() {
                            pos[i + 1]
                        } else {
                            src.len() as int
                        };
                        &&& 0 <= pos[i]
                        &&& pos[i] + md.len() <= next <= src.len()
                        &&& src.subrange(pos[i], pos[i] + md.len()) == md
                        &&& forall|j: int|
                            pos[i] + md.len() <= j < next ==> is_white_space(#[trigger] src[j])
                        &&& md.len() > 0 ==> !is_white_space(md.last())
                    }
            },
{
    let lines = spec_lines(src);
    lemma_lines_from_in_place(src, 0, 0);
    assert(lines.take(lines.len() as int) =~= lines);
    lemma_scan_headings_in_place(lines, lines.len() as int, src);
    let starts = scan_headings(lines)->Ok_0;
    let sections = spec_parse(src, expected)->Ok_0;
    assert(sections == spec_sections(src, starts));
    let pos = Seq::new(starts.len(), |i: int| starts[i].0);
    assert forall|i: int| #![trigger pos[i]] 0 <= i < pos.len() implies {
        let md = sections[i].markdown;
        let next = if i + 1 < pos.len() {
            pos[i + 1]
        } else {
            src.len() as int
        };
        &&& 0 <= pos[i]
        &&& pos[i] + md.len() <= next <= src.len()
        &&& src.subrange(pos[i], pos[i] + md.len()) == md
        &&& forall|j: int| pos[i] + md.len() <= j < next ==> is_white_space(#[trigger] src[j])
        &&& md.len() > 0 ==> !is_white_space(md.last())
    } by {
        let o = starts[i].0;
        let e = section_end(src.len() as int, starts, i);
        let t = src.subrange(o, e);
        let md = sections[i].markdown;
        assert(md == trim_end(t));
        if i + 1 < starts.len() {
            assert(starts[i + 1].0 >= starts[i].0 + 7);
            assert(starts[i + 1].0 + 7 <= src.len());
            assert(pos[i + 1] == e);
        }
        crate::text::lemma_trim_end_prefix(t);
        crate::text::lemma_trim_end_removes_white(t);
        assert(src.subrange(o, o + md.len()) =~= t.subrange(0, md.len() as int));
        assert forall|j: int| o + md.len() <= j < e implies is_white_space(#[trigger] src[j]) by {
            assert(t[j - o] == src[j]);
        }
    }    assert(pos.len() == sections.len());
}

/// The title names the section's version and its place: after
/// `UDS changelog — ` and the version's text come, in brackets, the
/// 1-based number of the shown section and the number of sections.
pub proof fn lemma_viewer_title_reads_back(version: VersionView, index: nat, count: nat)
    ensures
        exists|shown: Seq<char>, total: Seq<char>|
            {
                &&& spec_viewer_title(version, index, count) == "UDS changelog — "@ + version_text(
                    version,
                ) + "  ["@ + shown + "/"@ + total + "]"@
                &&& crate::version::is_number(shown) && crate::version::read_decimal(shown)
                    == index + 1
                &&& crate::version::is_number(total) && crate::version::read_decimal(total) == count
            },
{
    crate::version::lemma_decimal_reads_back(index + 1);
    crate::version::lemma_decimal_reads_back(count);
    let shown = decimal(index + 1);
    let total = decimal(count);
    assert(spec_viewer_title(version, index, count) == "UDS changelog — "@ + version_text(version)
        + "  ["@ + shown + "/"@ + total + "]"@);
}

} // verus!
