//! The scanner: a forward-only walk over the raw response body that locates
//! the array field, delimits every element's verbatim byte range by brace
//! nesting depth, extracts each element's own top-level identifier, and
//! fills a caller-owned `Scores` collection.
//!
//! The spec functions in this module give the scan as one recursive
//! definition over the byte sequence; `Deserializer::deserialize` is proved
//! to return exactly what that definition says, for every input.

use vstd::prelude::*;

use crate::buf::bytes_as_slice;
use crate::buf::bytes_view;
use crate::buf::slice_bytes;
use crate::find::find_either_byte;
use crate::find::find_needle;
use crate::find::first_match;
use crate::find::first_of2;
use crate::find::lemma_first_match_none;
use crate::find::lemma_first_match_some;
use crate::find::lemma_first_of2_none;
use crate::find::lemma_first_of2_some;
use crate::find::matches_at;
use crate::score::lemma_insert_all_push;
use crate::score::spec_insert_all;
use crate::score::Score;
use crate::score::ScoreView;
use crate::score::Scores;
use bytes::Bytes;
use vstd::slice::slice_index_get;
use vstd::slice::slice_subrange;

verus! {

/// Why a scan failed. Every failure is fatal to the call that raised it;
/// elements inserted before the failure stay in the caller's collection.
#[derive(Debug, Clone, Copy, PartialEq, Eq, Structural)]
pub enum ScanError {
    /// The array-field marker occurs nowhere in the input.
    MissingArrayKey,
    /// The input ended while skipping spaces ahead of the opening bracket.
    SkipFailed,
    /// A byte other than a space stood where the opening bracket was owed.
    UnexpectedCharacter,
    /// The byte after the opening bracket opens neither an element nor
    /// closes the array.
    ExpectedBraceOrBracket,
    /// An element closed without an identifier field in its own scope.
    MissingId,
    /// The byte after an element's closing brace is neither a separator nor
    /// the array terminator.
    ExpectedCommaOrBracket,
    /// No decimal digit stood where an identifier value was expected.
    PeekDigitFailed,
    /// The input ended in the middle of the array: inside an element,
    /// or where a separator or terminator byte was owed.
    UnexpectedEof,
}

/// The fixed byte literal that introduces the array field: `"scores":`.
pub open spec fn scores_marker_spec() -> Seq<u8> {
    seq![34u8, 115u8, 99u8, 111u8, 114u8, 101u8, 115u8, 34u8, 58u8]
}

/// The fixed byte literal that introduces an identifier field: `"id":`.
pub open spec fn id_marker_spec() -> Seq<u8> {
    seq![34u8, 105u8, 100u8, 34u8, 58u8]
}

pub open spec fn is_space(b: u8) -> bool {
    b == 32
}

pub open spec fn is_digit(b: u8) -> bool {
    48 <= b <= 57
}

/// The first position at or after `k` that does not hold an ASCII space,
/// or the length of `s` if spaces run to its end.
pub open spec fn skip_spaces_spec(s: Seq<u8>, k: int) -> int
    decreases s.len() - k,
{
    if 0 <= k < s.len() && is_space(s[k]) {
        skip_spaces_spec(s, k + 1)
    } else {
        k
    }
}

/// The end of the maximal run of ASCII decimal digits starting at `k`.
pub open spec fn digit_run_end_spec(s: Seq<u8>, k: int) -> int
    decreases s.len() - k,
{
    if 0 <= k < s.len() && is_digit(s[k]) {
        digit_run_end_spec(s, k + 1)
    } else {
        k
    }
}

/// One step of the identifier accumulator: `acc * 10` plus the digit's
/// value, each with 64-bit wraparound and no overflow detection.
pub open spec fn digit_step(acc: u64, b: u8) -> u64 {
    vstd::wrapping::u64_specs::wrapping_add(
        vstd::wrapping::u64_specs::wrapping_mul(acc, 10),
        (b & 0xF) as u64,
    )
}

/// The accumulated value of the digits `s[k..e)`.
pub open spec fn digits_value_spec(s: Seq<u8>, k: int, e: int) -> u64
    decreases e - k,
{
    if k < e {
        digit_step(digits_value_spec(s, k, e - 1), s[e - 1])
    } else {
        0
    }
}

/// What peeking an unsigned identifier off the front of `s` yields: skip
/// leading spaces, then read a maximal digit run; `None` when the input
/// runs out first or the first non-space byte is no digit.
pub open spec fn peek_u64_spec(s: Seq<u8>) -> Option<u64> {
    let k = skip_spaces_spec(s, 0);
    if k < s.len() && is_digit(s[k]) {
        Some(digits_value_spec(s, k, digit_run_end_spec(s, k)))
    } else {
        None
    }
}

/// What searching one depth-1 gap for the element's identifier yields:
/// `Ok(None)` when the identifier marker does not occur in the gap,
/// `Ok(Some(n))` when it does and a value follows, and an error when the
/// marker occurs but no digit follows it.
pub open spec fn gap_id_spec(gap: Seq<u8>) -> Result<Option<u64>, ScanError> {
    match first_match(gap, id_marker_spec(), 0) {
        Option::None => Result::Ok(Option::None),
        Option::Some(p) => match peek_u64_spec(
            gap.subrange(p + id_marker_spec().len(), gap.len() as int),
        ) {
            Option::None => Result::Err(ScanError::PeekDigitFailed),
            Option::Some(n) => Result::Ok(Option::Some(n)),
        },
    }
}

/// The maximal digit run: everything in `[k, digit_run_end_spec)` is a
/// digit, and the run is bounded by the length.
proof fn lemma_digit_run_range(s: Seq<u8>, k: int)
    requires
        0 <= k <= s.len(),
    ensures
        k <= digit_run_end_spec(s, k) <= s.len(),
        forall|j: int| k <= j < digit_run_end_spec(s, k) ==> is_digit(s[j]),
    decreases s.len() - k,
{
    if k < s.len() && is_digit(s[k]) {
        lemma_digit_run_range(s, k + 1);
    }
}

/// Advances over consecutive ASCII spaces; returns the offset of the first
/// other byte, or the input's length if spaces run to its end.
fn skip_spaces(s: &[u8], from: usize) -> (r: usize)
    requires
        from <= s@.len(),
    ensures
        from <= r <= s@.len(),
        r as int == skip_spaces_spec(s@, from as int),
{
    let mut k = from;
    while k < s.len() && *slice_index_get(s, k) == 32u8
        invariant
            from <= k <= s@.len(),
            skip_spaces_spec(s@, from as int) == skip_spaces_spec(s@, k as int),
        decreases s@.len() - k,
    {
        k = k + 1;
    }
    k
}

/// Whether the byte at `i` is an ASCII decimal digit.
fn digit_at(s: &[u8], i: usize) -> (r: bool)
    requires
        i < s@.len(),
    ensures
        r == is_digit(s@[i as int]),
{
    let b = *slice_index_get(s, i);
    48 <= b && b <= 57
}

/// The end of the maximal digit run starting at `from`.
fn digit_end(s: &[u8], from: usize) -> (r: usize)
    requires
        from <= s@.len(),
    ensures
        from <= r <= s@.len(),
        r as int == digit_run_end_spec(s@, from as int),
{
    let mut k = from;
    while k < s.len() && digit_at(s, k)
        invariant
            from <= k <= s@.len(),
            digit_run_end_spec(s@, from as int) == digit_run_end_spec(s@, k as int),
        decreases s@.len() - k,
    {
        k = k + 1;
    }
    k
}

/// The depth-tracked element walk, beginning just past a brace. `pos` is
/// where the search for the next structural brace resumes; `depth` is the
/// nesting level after the brace last processed; `start` is where the
/// current element began; `cp` is the checkpoint, the last position at
/// which the walk stood at depth 1 inside the current element; `found` is
/// the identifier captured so far; `acc` are the elements already scanned,
/// in scan order. Yields every element scanned, paired with the error that
/// ended the walk, if one did.
pub open spec fn scan_loop_spec(
    s: Seq<u8>,
    pos: int,
    depth: int,
    start: int,
    cp: int,
    found: Option<u64>,
    acc: Seq<ScoreView>,
) -> (Seq<ScoreView>, Option<ScanError>)
    decreases s.len() - pos,
    via scan_loop_spec_dec
{
    match first_of2(s, 123u8, 125u8, pos) {
        Option::None => (acc, Option::Some(ScanError::UnexpectedEof)),
        Option::Some(i) => {
            let nd = if s[i] == 123 {
                depth + 1
            } else {
                depth - 1
            };
            let g = if found is None && depth == 1 {
                gap_id_spec(s.subrange(cp, i))
            } else {
                Result::Ok(found)
            };
            match g {
                Result::Err(e) => (acc, Option::Some(e)),
                Result::Ok(f2) => {
                    if nd == 1 {
                        scan_loop_spec(
                            s,
                            i + 1,
                            1,
                            if depth == 0 {
                                i
                            } else {
                                start
                            },
                            i,
                            f2,
                            acc,
                        )
                    } else if nd == 0 {
                        match f2 {
                            Option::None => (acc, Option::Some(ScanError::MissingId)),
                            Option::Some(id) => {
                                let acc2 = acc.push(
                                    ScoreView { id, bytes: s.subrange(start, i + 1) },
                                );
                                if i + 1 >= s.len() {
                                    (acc2, Option::Some(ScanError::UnexpectedEof))
                                } else if s[i + 1] == 44 {
                                    scan_loop_spec(s, i + 1, 0, start, cp, Option::None, acc2)
                                } else if s[i + 1] == 93 {
                                    (acc2, Option::None)
                                } else {
                                    (acc2, Option::Some(ScanError::ExpectedCommaOrBracket))
                                }
                            },
                        }
                    } else {
                        scan_loop_spec(s, i + 1, nd, start, cp, f2, acc)
                    }
                },
            }
        },
    }
}

#[via_fn]
proof fn scan_loop_spec_dec(
    s: Seq<u8>,
    pos: int,
    depth: int,
    start: int,
    cp: int,
    found: Option<u64>,
    acc: Seq<ScoreView>,
) {
    crate::find::lemma_first_of2_bounds(s, 123u8, 125u8, pos);
}

/// What scanning the array yields, the cursor standing just past the
/// array-field marker: skip spaces to the opening bracket, handle the
/// empty array, then walk the elements.
pub open spec fn scan_scores_spec(s: Seq<u8>, idx: int) -> (Seq<ScoreView>, Option<ScanError>) {
    let k = skip_spaces_spec(s, idx);
    if k >= s.len() {
        (Seq::<ScoreView>::empty(), Option::Some(ScanError::SkipFailed))
    } else if s[k] != 91 {
        (Seq::<ScoreView>::empty(), Option::Some(ScanError::UnexpectedCharacter))
    } else if k + 1 >= s.len() {
        (Seq::<ScoreView>::empty(), Option::Some(ScanError::UnexpectedEof))
    } else if s[k + 1] == 93 {
        (Seq::<ScoreView>::empty(), Option::None)
    } else if s[k + 1] != 123 {
        (Seq::<ScoreView>::empty(), Option::Some(ScanError::ExpectedBraceOrBracket))
    } else {
        scan_loop_spec(s, k + 2, 1, k + 1, k + 1, Option::None, Seq::<ScoreView>::empty())
    }
}

/// What scanning a whole input buffer yields: the elements of the array
/// introduced by the first occurrence of the array-field marker, in scan
/// order, and the error that ended the scan, if one did.
pub open spec fn spec_deserialize(s: Seq<u8>) -> (Seq<ScoreView>, Option<ScanError>) {
    match first_match(s, scores_marker_spec(), 0) {
        Option::None => (Seq::<ScoreView>::empty(), Option::Some(ScanError::MissingArrayKey)),
        Option::Some(p) => scan_scores_spec(s, p + scores_marker_spec().len()),
    }
}

/// When the array-field marker occurs nowhere in the input, the scan
/// fails with `MissingArrayKey` and yields no element.
pub proof fn lemma_missing_marker(s: Seq<u8>)
    requires
        forall|i: int| !matches_at(s, scores_marker_spec(), i),
    ensures
        spec_deserialize(s) == (
            Seq::<ScoreView>::empty(),
            Option::Some(ScanError::MissingArrayKey),
        ),
{
    lemma_first_match_none(s, scores_marker_spec(), 0);
}

/// Once an element closes at `i` with its identifier in hand, the byte
/// immediately after the closing brace decides, with no space skipped:
/// anything other than the separator or the array terminator fails the
/// scan with `ExpectedCommaOrBracket`.
pub proof fn lemma_malformed_separator(
    s: Seq<u8>,
    pos: int,
    start: int,
    cp: int,
    found: Option<u64>,
    acc: Seq<ScoreView>,
    i: int,
)
    requires
        first_of2(s, 123u8, 125u8, pos) == Some(i),
        s[i] == 125,
        (if found is None {
            gap_id_spec(s.subrange(cp, i))
        } else {
            Result::<Option<u64>, ScanError>::Ok(found)
        }) matches Result::Ok(Option::Some(_)),
        i + 1 < s.len(),
        s[i + 1] != 44,
        s[i + 1] != 93,
    ensures
        scan_loop_spec(s, pos, 1, start, cp, found, acc).1 == Some(
            ScanError::ExpectedCommaOrBracket,
        ),
{
}

/// `v` is a verbatim sub-range of `s`: a contiguous run of `s`'s own
/// bytes, byte for byte, beginning at an opening structural brace and
/// ending at a structural brace, both inclusive.
pub open spec fn verbatim_element(s: Seq<u8>, v: ScoreView) -> bool {
    exists|a: int, b: int|
        0 <= a <= b < s.len() && v.bytes == s.subrange(a, b + 1) && s[a] == 123 && (s[b] == 123
            || s[b] == 125)
}

/// Every member of `es` is a verbatim sub-range of `s`.
pub open spec fn all_verbatim(s: Seq<u8>, es: Seq<ScoreView>) -> bool {
    forall|k: int| 0 <= k < es.len() ==> verbatim_element(s, #[trigger] es[k])
}

proof fn lemma_scan_loop_verbatim(
    s: Seq<u8>,
    pos: int,
    depth: int,
    start: int,
    cp: int,
    found: Option<u64>,
    acc: Seq<ScoreView>,
)
    requires
        0 <= start < pos <= s.len(),
        s[start] == 123,
        all_verbatim(s, acc),
    ensures
        all_verbatim(s, scan_loop_spec(s, pos, depth, start, cp, found, acc).0),
    decreases s.len() - pos,
{
    crate::find::lemma_first_of2_bounds(s, 123u8, 125u8, pos);
    match first_of2(s, 123u8, 125u8, pos) {
        Option::None => {
            assert(scan_loop_spec(s, pos, depth, start, cp, found, acc).0 == acc);
        },
        Option::Some(i) => {
            let nd = if s[i] == 123 {
                depth + 1
            } else {
                depth - 1
            };
            let g = if found is None && depth == 1 {
                gap_id_spec(s.subrange(cp, i))
            } else {
                Result::Ok(found)
            };
            match g {
                Result::Err(_) => {
                    assert(scan_loop_spec(s, pos, depth, start, cp, found, acc).0 == acc);
                },
                Result::Ok(f2) => {
                    if nd == 1 {
                        let start2 = if depth == 0 {
                            i
                        } else {
                            start
                        };
                        assert(s[start2] == 123);
                        lemma_scan_loop_verbatim(s, i + 1, 1, start2, i, f2, acc);
                        assert(scan_loop_spec(s, pos, depth, start, cp, found, acc)
                            == scan_loop_spec(s, i + 1, 1, start2, i, f2, acc));
                    } else if nd == 0 {
                        match f2 {
                            Option::None => {
                                assert(scan_loop_spec(s, pos, depth, start, cp, found, acc).0
                                    == acc);
                            },
                            Option::Some(id) => {
                                let v = ScoreView { id, bytes: s.subrange(start, i + 1) };
                                let acc2 = acc.push(v);
                                assert(verbatim_element(s, v)) by {
                                    assert(0 <= start <= i < s.len() && v.bytes == s.subrange(
                                        start,
                                        i + 1,
                                    ) && s[start] == 123 && (s[i] == 123 || s[i] == 125));
                                }
                                assert(all_verbatim(s, acc2)) by {
                                    assert forall|k: int|
                                        0 <= k < acc2.len() implies verbatim_element(
                                        s,
                                        #[trigger] acc2[k],
                                    ) by {
                                        if k < acc.len() {
                                            assert(acc2[k] == acc[k]);
                                            assert(verbatim_element(s, acc[k]));
                                        } else {
                                            assert(acc2[k] == v);
                                        }
                                    }
                                }
                                if i + 1 >= s.len() {
                                    assert(scan_loop_spec(s, pos, depth, start, cp, found, acc).0
                                        == acc2);
                                } else if s[i + 1] == 44 {
                                    lemma_scan_loop_verbatim(
                                        s,
                                        i + 1,
                                        0,
                                        start,
                                        cp,
                                        Option::None,
                                        acc2,
                                    );
                                    assert(scan_loop_spec(s, pos, depth, start, cp, found, acc)
                                        == scan_loop_spec(s, i + 1, 0, start, cp, Option::None, acc2));
                                } else {
                                    assert(scan_loop_spec(s, pos, depth, start, cp, found, acc).0
                                        == acc2);
                                }
                            },
                        }
                    } else {
                        lemma_scan_loop_verbatim(s, i + 1, nd, start, cp, f2, acc);
                        assert(scan_loop_spec(s, pos, depth, start, cp, found, acc)
                            == scan_loop_spec(s, i + 1, nd, start, cp, f2, acc));
                    }
                },
            }
        },
    }
}

/// The whole run of spaces is bounded: the skip lands between its start
/// and the end of the input.
proof fn lemma_skip_spaces_range(s: Seq<u8>, k: int)
    requires
        0 <= k <= s.len(),
    ensures
        k <= skip_spaces_spec(s, k) <= s.len(),
    decreases s.len() - k,
{
    if k < s.len() && is_space(s[k]) {
        lemma_skip_spaces_range(s, k + 1);
    }
}

/// Every element the scan yields is a verbatim sub-range of the input:
/// its bytes are the input's own bytes, contiguous and unaltered, from
/// the element's opening structural brace to the structural brace that
/// closed it, inclusive.
pub proof fn lemma_elements_verbatim(s: Seq<u8>)
    ensures
        all_verbatim(s, spec_deserialize(s).0),
{
    match first_match(s, scores_marker_spec(), 0) {
        Option::None => {},
        Option::Some(p) => {
            crate::find::lemma_first_match_bounds(s, scores_marker_spec(), 0);
            let idx = p + scores_marker_spec().len();
            lemma_skip_spaces_range(s, idx);
            let k = skip_spaces_spec(s, idx);
            if k < s.len() && s[k] == 91 && k + 1 < s.len() && s[k + 1] == 123 {
                lemma_scan_loop_verbatim(
                    s,
                    k + 2,
                    1,
                    k + 1,
                    k + 1,
                    Option::None,
                    Seq::<ScoreView>::empty(),
                );
            }
        },
    }
}

/// An empty array yields no element and no error: when the first
/// non-space byte after the array-field marker opens the array and the
/// very next byte closes it, the scan succeeds with an empty element
/// list.
pub proof fn lemma_empty_array(s: Seq<u8>, p: int)
    requires
        first_match(s, scores_marker_spec(), 0) == Some(p),
        skip_spaces_spec(s, p + 9) + 1 < s.len(),
        s[skip_spaces_spec(s, p + 9)] == 91,
        s[skip_spaces_spec(s, p + 9) + 1] == 93,
    ensures
        spec_deserialize(s) == (Seq::<ScoreView>::empty(), Option::<ScanError>::None),
{
    assert(scores_marker_spec().len() == 9);
}

/// Scanning one buffer twice, each time into a fresh copy of the same
/// starting collection, yields the same elements, the same final
/// collection and the same outcome: the scan is a function of the input
/// bytes alone.
pub proof fn lemma_scan_deterministic(s1: Seq<u8>, s2: Seq<u8>, init: Seq<ScoreView>)
    requires
        s1 == s2,
    ensures
        spec_deserialize(s1).0 == spec_deserialize(s2).0,
        spec_deserialize(s1).1 == spec_deserialize(s2).1,
        spec_insert_all(init, spec_deserialize(s1).0) == spec_insert_all(
            init,
            spec_deserialize(s2).0,
        ),
{
}

fn scores_marker() -> (r: Vec<u8>)
    ensures
        r@ == scores_marker_spec(),
{
    let mut v: Vec<u8> = Vec::new();
    v.push(34);
    v.push(115);
    v.push(99);
    v.push(111);
    v.push(114);
    v.push(101);
    v.push(115);
    v.push(34);
    v.push(58);
    proof {
        assert(v@ =~= scores_marker_spec());
    }
    v
}

fn id_marker() -> (r: Vec<u8>)
    ensures
        r@ == id_marker_spec(),
{
    let mut v: Vec<u8> = Vec::new();
    v.push(34);
    v.push(105);
    v.push(100);
    v.push(34);
    v.push(58);
    proof {
        assert(v@ =~= id_marker_spec());
    }
    v
}

/// After skipping leading spaces, consumes a maximal run of ASCII decimal
/// digits and accumulates them via repeated `value * 10 + digit` with
/// 64-bit wraparound; `None` if no digit is found first.
fn peek_u64(s: &[u8]) -> (r: Option<u64>)
    ensures
        r == peek_u64_spec(s@),
{
    let k = skip_spaces(s, 0);
    if k == s.len() {
        return None;
    }
    if !digit_at(s, k) {
        return None;
    }
    let e = digit_end(s, k);
    proof {
        lemma_digit_run_range(s@, k as int);
    }
    let mut val: u64 = 0;
    let mut t = k;
    while t < e
        invariant
            k <= t <= e <= s@.len(),
            e as int == digit_run_end_spec(s@, k as int),
            forall|j: int| k <= j < e ==> is_digit(s@[j]),
            val == digits_value_spec(s@, k as int, t as int),
        decreases e - t,
    {
        let b = *slice_index_get(s, t);
        val = val.wrapping_mul(10).wrapping_add((b & 0xF) as u64);
        t = t + 1;
    }
    Some(val)
}

/// Scans the raw byte body of an API response.
///
/// The body is expected to hold, among other fields, one array field of
/// objects, each carrying an identifier in its own top-level scope. Only
/// that array is read; any cursor fields the response carries are ignored,
/// since callers derive their own cursor from the extracted identifiers.
pub struct Deserializer {
    bytes: Bytes,
}

impl Deserializer {
    /// The bytes this deserializer scans.
    pub closed spec fn input(&self) -> Seq<u8> {
        bytes_view(self.bytes)
    }

    pub fn new(bytes: Bytes) -> (r: Self)
        ensures
            r.input() == bytes_view(bytes),
    {
        Deserializer { bytes }
    }

    /// Scans the input and fills `scores` with the array's elements, each
    /// a verbatim byte range paired with its identifier, deduplicated and
    /// ascending by identifier. On an error, the elements scanned before
    /// the failure point remain inserted, and the failure is reported
    /// distinctly; a failed scan is never presented as success.
    pub fn deserialize(self, scores: &mut Scores) -> (r: Result<(), ScanError>)
        requires
            old(scores).wf(),
        ensures
            final(scores)@ == spec_insert_all(old(scores)@, spec_deserialize(self.input()).0),
            final(scores).wf(),
            r == (match spec_deserialize(self.input()).1 {
                Option::Some(e) => Result::<(), ScanError>::Err(e),
                Option::None => Result::<(), ScanError>::Ok(()),
            }),
    {
        let marker = scores_marker();
        let sref: &[u8] = bytes_as_slice(&self.bytes);
        match find_needle(sref, marker.as_slice()) {
            None => {
                proof {
                    lemma_first_match_none(self.input(), scores_marker_spec(), 0);
                    assert(spec_insert_all(old(scores)@, Seq::<ScoreView>::empty()) == old(
                        scores,
                    )@);
                }
                Err(ScanError::MissingArrayKey)
            },
            Some(p) => {
                proof {
                    lemma_first_match_some(self.input(), scores_marker_spec(), 0, p as int);
                    assert(scores_marker_spec().len() == 9);
                    vstd::slice::axiom_spec_len::<u8>(sref);
                }
                let idx: usize = p + 9;
                self.deserialize_scores(sref, idx, scores)
            },
        }
    }

    fn deserialize_scores(&self, s: &[u8], idx: usize, scores: &mut Scores) -> (r: Result<
        (),
        ScanError,
    >)
        requires
            s@ == self.input(),
            idx <= s@.len(),
            old(scores).wf(),
        ensures
            final(scores)@ == spec_insert_all(old(scores)@, scan_scores_spec(s@, idx as int).0),
            final(scores).wf(),
            r == (match scan_scores_spec(s@, idx as int).1 {
                Option::Some(e) => Result::<(), ScanError>::Err(e),
                Option::None => Result::<(), ScanError>::Ok(()),
            }),
    {
        proof {
            assert(spec_insert_all(old(scores)@, Seq::<ScoreView>::empty()) == old(scores)@);
        }
        let k: usize = skip_spaces(s, idx);
        if k == s.len() {
            return Err(ScanError::SkipFailed);
        }
        let bk: u8 = *slice_index_get(s, k);
        if bk != 91 {
            return Err(ScanError::UnexpectedCharacter);
        }
        let j: usize = k + 1;
        if j == s.len() {
            return Err(ScanError::UnexpectedEof);
        }
        let bj: u8 = *slice_index_get(s, j);
        if bj == 93 {
            return Ok(());
        }
        if bj != 123 {
            return Err(ScanError::ExpectedBraceOrBracket);
        }
        let ghost target = scan_loop_spec(
            s@,
            j as int + 1,
            1,
            j as int,
            j as int,
            Option::None,
            Seq::<ScoreView>::empty(),
        );
        proof {
            assert(scan_scores_spec(s@, idx as int) == target);
        }
        let mut pos: usize = j + 1;
        let mut depth: i128 = 1;
        let mut start: usize = j;
        let mut cp: usize = j;
        let mut found: Option<u64> = None;
        let ghost mut acc = Seq::<ScoreView>::empty();
        loop
            invariant
                s@ == self.input(),
                pos <= s@.len(),
                (start as int) < pos as int,
                (cp as int) < pos as int,
                scores.wf(),
                scores@ == spec_insert_all(old(scores)@, acc),
                -(pos as int) <= depth as int <= pos as int + 1,
                scan_loop_spec(
                    s@,
                    pos as int,
                    depth as int,
                    start as int,
                    cp as int,
                    found,
                    acc,
                ) == target,
                scan_scores_spec(s@, idx as int) == target,
            decreases s@.len() - pos,
        {
            let sub: &[u8] = slice_subrange(s, pos, s.len());
            match find_either_byte(123, 125, sub) {
                None => {
                    proof {
                        assert forall|t: int| pos <= t < s@.len() implies s@[t] != 123 && s@[t]
                            != 125 by {
                            assert(sub@[t - pos] == s@[t]);
                        }
                        lemma_first_of2_none(s@, 123, 125, pos as int);
                    }
                    return Err(ScanError::UnexpectedEof);
                },
                Some(rel) => {
                    let i: usize = pos + rel;
                    proof {
                        assert(s@[i as int] == sub@[rel as int]);
                        assert forall|t: int| pos <= t < i implies s@[t] != 123 && s@[t]
                            != 125 by {
                            assert(sub@[t - pos] == s@[t]);
                        }
                        lemma_first_of2_some(s@, 123, 125, pos as int, i as int);
                    }
                    let bi: u8 = *slice_index_get(s, i);
                    let nd: i128 = if bi == 123 {
                        depth + 1
                    } else {
                        depth - 1
                    };
                    let ghost found0 = found;
                    if found.is_none() && depth == 1 {
                        let gap: &[u8] = slice_subrange(s, cp, i);
                        let idm = id_marker();
                        match find_needle(gap, idm.as_slice()) {
                            None => {
                                proof {
                                    lemma_first_match_none(gap@, id_marker_spec(), 0);
                                }
                            },
                            Some(p2) => {
                                proof {
                                    lemma_first_match_some(gap@, id_marker_spec(), 0, p2 as int);
                                    assert(id_marker_spec().len() == 5);
                                }
                                let rest: &[u8] = slice_subrange(gap, p2 + 5, gap.len());
                                match peek_u64(rest) {
                                    None => {
                                        proof {
                                            assert(scan_loop_spec(
                                                s@,
                                                pos as int,
                                                depth as int,
                                                start as int,
                                                cp as int,
                                                found0,
                                                acc,
                                            ) == (acc, Option::Some(ScanError::PeekDigitFailed)));
                                        }
                                        return Err(ScanError::PeekDigitFailed);
                                    },
                                    Some(n) => {
                                        found = Some(n);
                                    },
                                }
                            },
                        }
                    }
                    proof {
                        assert((if found0 is None && depth as int == 1 {
                            gap_id_spec(s@.subrange(cp as int, i as int))
                        } else {
                            Result::<Option<u64>, ScanError>::Ok(found0)
                        }) == Result::<Option<u64>, ScanError>::Ok(found));
                    }
                    if nd == 1 {
                        proof {
                            assert(scan_loop_spec(
                                s@,
                                pos as int,
                                depth as int,
                                start as int,
                                cp as int,
                                found0,
                                acc,
                            ) == scan_loop_spec(
                                s@,
                                i as int + 1,
                                1,
                                if depth as int == 0 {
                                    i as int
                                } else {
                                    start as int
                                },
                                i as int,
                                found,
                                acc,
                            ));
                        }
                        if depth == 0 {
                            start = i;
                        }
                        cp = i;
                        depth = 1;
                        pos = i + 1;
                    } else if nd == 0 {
                        match found {
                            None => {
                                proof {
                                    assert(scan_loop_spec(
                                        s@,
                                        pos as int,
                                        depth as int,
                                        start as int,
                                        cp as int,
                                        found0,
                                        acc,
                                    ) == (acc, Option::Some(ScanError::MissingId)));
                                }
                                return Err(ScanError::MissingId);
                            },
                            Some(idv) => {
                                let eb = slice_bytes(&self.bytes, start, i + 1);
                                let sc = Score::from_parts(idv, eb);
                                let ghost acc0 = acc;
                                proof {
                                    lemma_insert_all_push(old(scores)@, acc0, sc@);
                                    acc = acc0.push(
                                        ScoreView {
                                            id: idv,
                                            bytes: s@.subrange(start as int, i as int + 1),
                                        },
                                    );
                                    assert(sc@ == (ScoreView {
                                        id: idv,
                                        bytes: s@.subrange(start as int, i as int + 1),
                                    }));
                                }
                                scores.insert(sc);
                                if i + 1 == s.len() {
                                    proof {
                                        assert(scan_loop_spec(
                                            s@,
                                            pos as int,
                                            depth as int,
                                            start as int,
                                            cp as int,
                                            found0,
                                            acc0,
                                        ) == (acc, Option::Some(ScanError::UnexpectedEof)));
                                    }
                                    return Err(ScanError::UnexpectedEof);
                                }
                                let bn: u8 = *slice_index_get(s, i + 1);
                                if bn == 44 {
                                    proof {
                                        assert(scan_loop_spec(
                                            s@,
                                            pos as int,
                                            depth as int,
                                            start as int,
                                            cp as int,
                                            found0,
                                            acc0,
                                        ) == scan_loop_spec(
                                            s@,
                                            i as int + 1,
                                            0,
                                            start as int,
                                            cp as int,
                                            Option::None,
                                            acc,
                                        ));
                                    }
                                    depth = 0;
                                    found = None;
                                    pos = i + 1;
                                } else if bn == 93 {
                                    proof {
                                        assert(scan_loop_spec(
                                            s@,
                                            pos as int,
                                            depth as int,
                                            start as int,
                                            cp as int,
                                            found0,
                                            acc0,
                                        ) == (acc, Option::<ScanError>::None));
                                    }
                                    return Ok(());
                                } else {
                                    proof {
                                        assert(scan_loop_spec(
                                            s@,
                                            pos as int,
                                            depth as int,
                                            start as int,
                                            cp as int,
                                            found0,
                                            acc0,
                                        ) == (
                                            acc,
                                            Option::Some(ScanError::ExpectedCommaOrBracket),
                                        ));
                                    }
                                    return Err(ScanError::ExpectedCommaOrBracket);
                                }
                            },
                        }
                    } else {
                        proof {
                            assert(scan_loop_spec(
                                s@,
                                pos as int,
                                depth as int,
                                start as int,
                                cp as int,
                                found0,
                                acc,
                            ) == scan_loop_spec(
                                s@,
                                i as int + 1,
                                nd as int,
                                start as int,
                                cp as int,
                                found,
                                acc,
                            ));
                        }
                        depth = nd;
                        pos = i + 1;
                    }
                },
            }
        }
    }
}

} // verus!
