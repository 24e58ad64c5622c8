//! Decoding CSV bytes, detecting the delimiter, parsing rows with the `csv`
//! crate and turning rows into size-checked JSON records.

use crate::json::{json_error_text, json_object_text, object_to_json, pairs_view, JsonRecord};
use crate::text::{
    decimal, digits_value, is_blank, is_blank_text, lemma_digits_value_decimal, push_decimal,
};
use crate::types::{delimiter_byte, Delimiter};
use vstd::prelude::*;
use vstd::utf8::{decode_utf8, encode_utf8, valid_utf8};

verus! {

/// Lets the `csv` crate's error stand in results.
#[verifier::external_type_specification]
#[verifier::external_body]
pub struct ExCsvError(csv::Error);

/// Text and error flag that `encoding_rs::GBK.decode` gives for these bytes
/// (it switches to UTF-8 or UTF-16 when the bytes start with their byte order mark).
pub uninterp spec fn gbk_decode(bytes: Seq<u8>) -> (Seq<char>, bool);

/// Text that `String::from_utf8_lossy` gives for these bytes.
pub uninterp spec fn utf8_lossy(bytes: Seq<u8>) -> Seq<char>;

/// What the `csv` crate reads from a text with this delimiter, headers on
/// and flexible row lengths: `None` when the header row cannot be read, else
/// the header fields and, for each later row, its fields or `None` for a row
/// it reports an error for.
pub uninterp spec fn csv_table(content: Seq<char>, delimiter: u8) -> Option<
    (Seq<Seq<char>>, Seq<Option<Seq<Seq<char>>>>),
>;

/// Whether bytes start with the UTF-8 byte order mark.
pub open spec fn has_utf8_bom(b: Seq<u8>) -> bool {
    b.len() >= 3 && b[0] == 0xEF && b[1] == 0xBB && b[2] == 0xBF
}

/// Bytes without a leading UTF-8 byte order mark.
pub open spec fn without_bom(b: Seq<u8>) -> Seq<u8> {
    if has_utf8_bom(b) {
        b.skip(3)
    } else {
        b
    }
}

/// Text of bytes: UTF-8 when valid (byte order mark dropped), else GBK when
/// it decodes without error, else UTF-8 with invalid sequences replaced.
pub open spec fn decoded_text(b: Seq<u8>) -> Seq<char> {
    let c = without_bom(b);
    if valid_utf8(c) {
        decode_utf8(c)
    } else if !gbk_decode(c).1 {
        gbk_decode(c).0
    } else {
        utf8_lossy(c)
    }
}

/// Largest input the GBK decoder takes: `encoding_rs` panics when its
/// output buffer size (about three bytes per input byte) overflows `usize`
/// or exceeds what a `String` can hold; this bound stays below both.
pub open spec fn decodable_len(b: Seq<u8>) -> bool {
    b.len() <= usize::MAX / 8
}

/// Bytes that decoding takes without panicking: valid UTF-8 of any length
/// (after the byte order mark), or input short enough for the GBK decoder.
pub open spec fn decodable(b: Seq<u8>) -> bool {
    valid_utf8(without_bom(b)) || decodable_len(without_bom(b))
}

/// The bytes as UTF-8 text, when they are valid UTF-8 (`std::str::from_utf8`).
#[verifier::external_body]
fn utf8_text(bytes: &[u8]) -> (r: Option<&str>)
    ensures
        r is Some <==> valid_utf8(bytes@),
        r matches Some(s) ==> s@ == decode_utf8(bytes@),
{
    std::str::from_utf8(bytes).ok()
}

/// GBK decoding with `encoding_rs::GBK.decode`: the text and whether any
/// malformed sequence was replaced.
#[verifier::external_body]
fn gbk_text(bytes: &[u8]) -> (r: (String, bool))
    requires
        decodable_len(bytes@),
    ensures
        (r.0@, r.1) == gbk_decode(bytes@),
{
    let (text, _, had_errors) = encoding_rs::GBK.decode(bytes);
    (text.into_owned(), had_errors)
}

/// UTF-8 decoding with replacement characters (`String::from_utf8_lossy`).
#[verifier::external_body]
fn lossy_text(bytes: &[u8]) -> (r: String)
    ensures
        r@ == utf8_lossy(bytes@),
{
    String::from_utf8_lossy(bytes).into_owned()
}

/// Decodes bytes to text: UTF-8 first (after dropping a byte order mark),
/// then GBK, then UTF-8 with replacement characters. Never fails.
pub fn decode_bytes(bytes: &[u8]) -> (r: Result<String, String>)
    requires
        decodable(bytes@),
    ensures
        r matches Ok(s) && s@ == decoded_text(bytes@),
{
    let body: &[u8] = if bytes.len() >= 3 && bytes[0] == 0xEF && bytes[1] == 0xBB && bytes[2]
        == 0xBF {
        let (_, rest) = bytes.split_at(3);
        rest
    } else {
        bytes
    };
    proof {
        assert(body@ =~= without_bom(bytes@));
    }
    if let Some(s) = utf8_text(body) {
        return Ok(String::from_str(s));
    }
    let (text, had_errors) = gbk_text(body);
    if !had_errors {
        return Ok(text);
    }
    Ok(lossy_text(body))
}

/// Text encoded as UTF-8 comes back unchanged from decoding, unless it
/// starts with a byte order mark (U+FEFF), which decoding drops; and such
/// bytes are taken whatever their length.
pub proof fn lemma_utf8_text_kept(s: Seq<char>)
    requires
        s.len() == 0 || s[0] as u32 != 0xFEFF,
    ensures
        decodable(encode_utf8(s)),
        decoded_text(encode_utf8(s)) == s,
{
    let b = encode_utf8(s);
    vstd::utf8::encode_utf8_valid_utf8(s);
    vstd::utf8::encode_utf8_decode_utf8(s);
    if has_utf8_bom(b) {
        assert(s.len() > 0);
        vstd::utf8::encode_utf8_first_scalar(s);
        assert(vstd::utf8::codepoint_width_3(0xEF, 0xBB, 0xBF) == 0xFEFF) by (bit_vector);
        assert(vstd::utf8::decode_first_scalar(b) == 0xFEFF);
    }
}

/// Which decoding the text comes from: after dropping a UTF-8 byte order
/// mark, valid UTF-8 is decoded as UTF-8; otherwise the GBK text is used
/// only when the GBK decoder reported no error, and when it reported one the
/// text is the UTF-8 decoding with replacement characters.
pub proof fn lemma_decoding_choice(b: Seq<u8>)
    ensures
        has_utf8_bom(b) ==> without_bom(b) == b.subrange(3, b.len() as int),
        !has_utf8_bom(b) ==> without_bom(b) == b,
        valid_utf8(without_bom(b)) ==> decoded_text(b) == decode_utf8(without_bom(b)),
        !valid_utf8(without_bom(b)) && !gbk_decode(without_bom(b)).1 ==> decoded_text(b)
            == gbk_decode(without_bom(b)).0,
        !valid_utf8(without_bom(b)) && gbk_decode(without_bom(b)).1 ==> decoded_text(b)
            == utf8_lossy(without_bom(b)),
{
    if has_utf8_bom(b) {
        assert(b.skip(3) =~= b.subrange(3, b.len() as int));
    }
}

/// Whether `decode_bytes` takes these bytes (see `decodable`).
pub fn can_decode(bytes: &[u8]) -> (b: bool)
    ensures
        b == decodable(bytes@),
{
    let body: &[u8] = if bytes.len() >= 3 && bytes[0] == 0xEF && bytes[1] == 0xBB && bytes[2]
        == 0xBF {
        let (_, rest) = bytes.split_at(3);
        rest
    } else {
        bytes
    };
    proof {
        assert(body@ =~= without_bom(bytes@));
    }
    body.len() <= usize::MAX / 8 || utf8_text(body).is_some()
}

/// Candidate delimiters in the order they are tried: `,` `;` tab `|`.
pub open spec fn candidate_delimiters() -> Seq<u8> {
    seq![44u8, 59u8, 9u8, 124u8]
}

/// How many bytes of `b` equal `d`.
pub open spec fn count_byte(b: Seq<u8>, d: u8) -> nat
    decreases b.len(),
{
    if b.len() == 0 {
        0
    } else {
        count_byte(b.drop_last(), d) + if b.last() == d {
            1nat
        } else {
            0nat
        }
    }
}

/// How many bytes of a line's UTF-8 encoding equal `d`.
pub open spec fn delimiter_count(line: Seq<char>, d: u8) -> nat {
    count_byte(encode_utf8(line), d)
}

/// The lines that are not blank, in order.
pub open spec fn nonblank_lines(lines: Seq<Seq<char>>) -> Seq<Seq<char>>
    decreases lines.len(),
{
    if lines.len() == 0 {
        Seq::empty()
    } else {
        let init = nonblank_lines(lines.drop_last());
        if is_blank_text(lines.last()) {
            init
        } else {
            init.push(lines.last())
        }
    }
}

/// Whether every line has as many of `d` as the first.
pub open spec fn all_same_count(lines: Seq<Seq<char>>, d: u8) -> bool {
    forall|i: int| 0 <= i < lines.len() ==> #[trigger] delimiter_count(lines[i], d) == delimiter_count(lines[0], d)
}

/// Score of a delimiter over non-blank lines, in the `i32` arithmetic of
/// detection: its count in the first line (as `i32`) times 100 when every
/// line has that same nonzero count, that count alone when it is nonzero
/// but some line differs, and none when the first line lacks it.
pub open spec fn delimiter_score(lines: Seq<Seq<char>>, d: u8) -> Option<int> {
    let first = delimiter_count(lines[0], d);
    if first > 0 && all_same_count(lines, d) {
        Some((first as i32) as int * 100)
    } else if first > 0 {
        Some((first as i32) as int)
    } else {
        None
    }
}

/// Keeps `best` unless `d` has a score that beats it.
pub open spec fn pick_delimiter(lines: Seq<Seq<char>>, best: Option<u8>, d: u8) -> Option<u8> {
    match delimiter_score(lines, d) {
        None => best,
        Some(s) => match best {
            None => Some(d),
            Some(b) => if s > delimiter_score(lines, b).unwrap() {
                Some(d)
            } else {
                best
            },
        },
    }
}

/// The first candidate with the highest score, if any has one.
pub open spec fn best_delimiter(lines: Seq<Seq<char>>) -> Option<u8> {
    let c = candidate_delimiters();
    pick_delimiter(
        lines,
        pick_delimiter(lines, pick_delimiter(lines, pick_delimiter(lines, None, c[0]), c[1]), c[2]),
        c[3],
    )
}

/// Texts of a list of strings.
pub open spec fn strings_view(v: Seq<String>) -> Seq<Seq<char>> {
    v.map_values(|s: String| s@)
}

/// Scores fit the `i32` arithmetic of detection: where a candidate occurs
/// the same nonzero number of times in every non-blank line, that count (as
/// `i32`) times 100 does not overflow.
pub open spec fn scores_fit(lines: Seq<Seq<char>>) -> bool {
    let ls = nonblank_lines(lines);
    ls.len() > 0 ==> forall|j: int|
        0 <= j < 4 ==> score_fits(ls, #[trigger] candidate_delimiters()[j])
}

/// The consistent score of `d` does not overflow `i32`.
pub open spec fn score_fits(ls: Seq<Seq<char>>, d: u8) -> bool {
    let first = delimiter_count(ls[0], d);
    first > 0 && all_same_count(ls, d) ==> i32::MIN <= (first as i32) as int * 100 <= i32::MAX
}

/// How many bytes of `line` equal `d`.
fn count_in_line(line: &String, d: u8) -> (n: usize)
    ensures
        n == delimiter_count(line@, d),
{
    let bytes = line.as_str().as_bytes();
    let mut n: usize = 0;
    let len = bytes.len();
    for i in 0..len
        invariant
            len == bytes@.len(),
            bytes@ == encode_utf8(line@),
            n == count_byte(bytes@.take(i as int), d),
            n <= i,
    {
        proof {
            assert(bytes@.take(i + 1).drop_last() =~= bytes@.take(i as int));
        }
        if bytes[i] == d {
            n = n + 1;
        }
    }
    proof {
        assert(bytes@.take(len as int) =~= bytes@);
    }
    n
}


/// The lines at `idx`, in order.
pub open spec fn lines_at(lines: Seq<Seq<char>>, idx: Seq<usize>) -> Seq<Seq<char>> {
    idx.map_values(|k: usize| lines[k as int])
}

/// Indices of the non-blank lines, in order.
fn nonblank_indices(lines: &Vec<String>) -> (idx: Vec<usize>)
    ensures
        forall|k: int| 0 <= k < idx@.len() ==> idx@[k] < lines@.len(),
        lines_at(strings_view(lines@), idx@) == nonblank_lines(strings_view(lines@)),
{
    let ghost all = strings_view(lines@);
    let mut idx: Vec<usize> = Vec::new();
    let n = lines.len();
    for i in 0..n
        invariant
            n == lines@.len(),
            all == strings_view(lines@),
            forall|k: int| 0 <= k < idx@.len() ==> idx@[k] < i,
            lines_at(all, idx@) == nonblank_lines(all.take(i as int)),
    {
        proof {
            assert(all.take(i + 1).drop_last() =~= all.take(i as int));
        }
        let blank = is_blank(lines[i].as_str());
        if !blank {
            idx.push(i);
            proof {
                assert(lines_at(all, idx@) =~= nonblank_lines(all.take(i as int)).push(all[i as int]));
            }
        }
    }
    proof {
        assert(all.take(n as int) =~= all);
    }
    idx
}

/// Count of `d` in the first listed line, and whether every listed line has that count.
fn count_profile(lines: &Vec<String>, idx: &Vec<usize>, d: u8) -> (r: (usize, bool))
    requires
        idx@.len() > 0,
        forall|k: int| 0 <= k < idx@.len() ==> idx@[k] < lines@.len(),
    ensures
        r.0 == delimiter_count(lines_at(strings_view(lines@), idx@)[0], d),
        r.1 == all_same_count(lines_at(strings_view(lines@), idx@), d),
{
    let ghost ls = lines_at(strings_view(lines@), idx@);
    let first = count_in_line(&lines[idx[0]], d);
    proof {
        assert(ls[0] == lines@[idx@[0] as int]@);
    }
    let mut same = true;
    let n = idx.len();
    for k in 0..n
        invariant
            n == idx@.len(),
            forall|k: int| 0 <= k < idx@.len() ==> idx@[k] < lines@.len(),
            ls == lines_at(strings_view(lines@), idx@),
            first == delimiter_count(ls[0], d),
            same == (forall|j: int| 0 <= j < k ==> delimiter_count(ls[j], d) == first),
    {
        let c = count_in_line(&lines[idx[k]], d);
        proof {
            assert(ls[k as int] == lines@[idx@[k as int] as int]@);
        }
        if c != first {
            same = false;
        }
    }
    (first, same)
}

/// Score of `d` over the listed lines.
fn score_of(lines: &Vec<String>, idx: &Vec<usize>, d: u8) -> (r: Option<i32>)
    requires
        idx@.len() > 0,
        forall|k: int| 0 <= k < idx@.len() ==> idx@[k] < lines@.len(),
        score_fits(lines_at(strings_view(lines@), idx@), d),
    ensures
        r == (match delimiter_score(lines_at(strings_view(lines@), idx@), d) {
            Some(s) => Some(s as i32),
            None => None,
        }),
{
    let (first, same) = count_profile(lines, idx, d);
    if first > 0 && same {
        Some(first as i32 * 100)
    } else if first > 0 {
        Some(first as i32)
    } else {
        None
    }
}

/// Whether detection's scores fit its `i32` arithmetic for these lines (see `scores_fit`).
pub fn detection_fits(lines: &Vec<String>) -> (b: bool)
    ensures
        b == scores_fit(strings_view(lines@)),
{
    let idx = nonblank_indices(lines);
    if idx.len() == 0 {
        return true;
    }
    let ghost ls = lines_at(strings_view(lines@), idx@);
    let mut ok = true;
    let cands: [u8; 4] = [44u8, 59u8, 9u8, 124u8];
    for j in 0..4usize
        invariant
            idx@.len() > 0,
            forall|k: int| 0 <= k < idx@.len() ==> idx@[k] < lines@.len(),
            ls == lines_at(strings_view(lines@), idx@),
            ls == nonblank_lines(strings_view(lines@)),
            cands@ == candidate_delimiters(),
            ok == (forall|i: int| 0 <= i < j ==> score_fits(ls, #[trigger] candidate_delimiters()[i])),
    {
        let d = cands[j];
        let (first, same) = count_profile(lines, &idx, d);
        if first > 0 && same {
            let t = first as i32 as i64;
            if t * 100 > i32::MAX as i64 || t * 100 < i32::MIN as i64 {
                ok = false;
            }
        }
    }
    ok
}

/// Chooses the delimiter of CSV lines: blank lines are ignored, and of `,`
/// `;` tab `|` the first with the highest score wins (see `delimiter_score`).
/// Fails when every line is blank, or when no candidate occurs in the first
/// non-blank line.
pub fn detect_delimiter_in_lines(lines: &Vec<String>) -> (r: Result<u8, String>)
    requires
        scores_fit(strings_view(lines@)),
    ensures
        ({
            let ls = nonblank_lines(strings_view(lines@));
            &&& ls.len() == 0 ==> (r matches Err(m) && m@ == "文件为空"@)
            &&& ls.len() > 0 && best_delimiter(ls) is None ==> (r matches Err(m) && m@
                == "无法检测分隔符"@)
            &&& ls.len() > 0 && best_delimiter(ls) is Some ==> r == Ok::<u8, String>(
                best_delimiter(ls).unwrap(),
            )
        }),
{
    let idx = nonblank_indices(lines);
    if idx.len() == 0 {
        return Err(String::from_str("文件为空"));
    }
    let ghost ls = lines_at(strings_view(lines@), idx@);
    proof {
        assert(candidate_delimiters()[0] == 44u8);
        assert(candidate_delimiters()[1] == 59u8);
        assert(candidate_delimiters()[2] == 9u8);
        assert(candidate_delimiters()[3] == 124u8);
        assert(score_fits(ls, candidate_delimiters()[0]));
        assert(score_fits(ls, candidate_delimiters()[1]));
        assert(score_fits(ls, candidate_delimiters()[2]));
        assert(score_fits(ls, candidate_delimiters()[3]));
    }
    let mut best: Option<u8> = None;
    let mut best_score: i32 = 0;
    let s1 = score_of(lines, &idx, 44u8);
    if let Some(s) = s1 {
        best = Some(44u8);
        best_score = s;
    }
    let ghost b1 = pick_delimiter(ls, None, 44u8);
    assert(best == b1);
    let s2 = score_of(lines, &idx, 59u8);
    if let Some(s) = s2 {
        if best.is_none() || s > best_score {
            best = Some(59u8);
            best_score = s;
        }
    }
    let ghost b2 = pick_delimiter(ls, b1, 59u8);
    assert(best == b2);
    let s3 = score_of(lines, &idx, 9u8);
    if let Some(s) = s3 {
        if best.is_none() || s > best_score {
            best = Some(9u8);
            best_score = s;
        }
    }
    let ghost b3 = pick_delimiter(ls, b2, 9u8);
    assert(best == b3);
    let s4 = score_of(lines, &idx, 124u8);
    if let Some(s) = s4 {
        if best.is_none() || s > best_score {
            best = Some(124u8);
            best_score = s;
        }
    }
    assert(best == best_delimiter(ls));
    match best {
        Some(d) => Ok(d),
        None => Err(String::from_str("无法检测分隔符")),
    }
}

/// The detected delimiter is a candidate with the highest score; there is
/// one exactly when some candidate occurs in the first line.
pub proof fn lemma_best_delimiter_is_highest(lines: Seq<Seq<char>>)
    requires
        lines.len() > 0,
    ensures
        best_delimiter(lines) is Some <==> exists|j: int|
            0 <= j < 4 && #[trigger] delimiter_score(lines, candidate_delimiters()[j]) is Some,
        best_delimiter(lines) matches Some(d) ==> {
            &&& candidate_delimiters().contains(d)
            &&& delimiter_score(lines, d) is Some
            &&& forall|j: int|
                0 <= j < 4 ==> (#[trigger] delimiter_score(lines, candidate_delimiters()[j]) matches Some(
                    s,
                ) ==> s <= delimiter_score(lines, d).unwrap())
        },
{
    let c = candidate_delimiters();
    assert(c[0] == 44u8 && c[1] == 59u8 && c[2] == 9u8 && c[3] == 124u8);
    if let Some(d) = best_delimiter(lines) {
        assert(d == c[0] || d == c[1] || d == c[2] || d == c[3]);
        if d == c[0] {
            assert(c.contains(d)) by { assert(c[0] == d); }
        } else if d == c[1] {
            assert(c.contains(d)) by { assert(c[1] == d); }
        } else if d == c[2] {
            assert(c.contains(d)) by { assert(c[2] == d); }
        } else {
            assert(c.contains(d)) by { assert(c[3] == d); }
        }
    }
}

/// A candidate that occurs in the first line always has a score, and one
/// that does not has none: when its count is the same in every line the
/// score is 100 times that count, and when some later line has another
/// count (more or fewer) the score is the first line's count.
pub proof fn lemma_present_delimiter_scores(lines: Seq<Seq<char>>, d: u8)
    requires
        lines.len() > 0,
    ensures
        delimiter_score(lines, d) is Some <==> delimiter_count(lines[0], d) > 0,
        delimiter_count(lines[0], d) > 0 && (forall|i: int|
            0 <= i < lines.len() ==> #[trigger] delimiter_count(lines[i], d) == delimiter_count(
                lines[0],
                d,
            )) ==> delimiter_score(lines, d) == Some(
            (delimiter_count(lines[0], d) as i32) as int * 100,
        ),
        forall|i: int|
            0 <= i < lines.len() && #[trigger] delimiter_count(lines[i], d) != delimiter_count(
                lines[0],
                d,
            ) && delimiter_count(lines[0], d) > 0 ==> delimiter_score(lines, d) == Some(
                (delimiter_count(lines[0], d) as i32) as int,
            ),
{
}

/// Detection finds a delimiter exactly when some candidate occurs in the
/// first line; and when exactly one candidate occurs there, that candidate
/// is the one detected, whatever its counts in later lines.
pub proof fn lemma_sole_present_delimiter_detected(lines: Seq<Seq<char>>, d: u8)
    requires
        lines.len() > 0,
    ensures
        best_delimiter(lines) is Some <==> exists|j: int|
            0 <= j < 4 && delimiter_count(lines[0], #[trigger] candidate_delimiters()[j]) > 0,
        candidate_delimiters().contains(d) && delimiter_count(lines[0], d) > 0 && (forall|j: int|
            0 <= j < 4 && #[trigger] candidate_delimiters()[j] != d ==> delimiter_count(
                lines[0],
                candidate_delimiters()[j],
            ) == 0) ==> best_delimiter(lines) == Some(d),
{
    let c = candidate_delimiters();
    assert(c[0] == 44u8 && c[1] == 59u8 && c[2] == 9u8 && c[3] == 124u8);
    lemma_best_delimiter_is_highest(lines);
    if best_delimiter(lines) is Some {
        let j = choose|j: int|
            0 <= j < 4 && #[trigger] delimiter_score(lines, candidate_delimiters()[j]) is Some;
        assert(delimiter_count(lines[0], c[j]) > 0);
    }
    if exists|j: int| 0 <= j < 4 && delimiter_count(lines[0], #[trigger] candidate_delimiters()[j]) > 0 {
        let j = choose|j: int|
            0 <= j < 4 && delimiter_count(lines[0], #[trigger] candidate_delimiters()[j]) > 0;
        assert(delimiter_score(lines, c[j]) is Some);
    }
}

/// Ties go to the earlier candidate: no candidate before the detected one
/// scores as high as it does.
pub proof fn lemma_detected_delimiter_is_first_of_highest(lines: Seq<Seq<char>>)
    requires
        lines.len() > 0,
    ensures
        forall|j: int, k: int|
            0 <= j < k < 4 && best_delimiter(lines) == Some(candidate_delimiters()[k])
                ==> (#[trigger] delimiter_score(lines, candidate_delimiters()[j]) matches Some(s)
                ==> s < delimiter_score(lines, #[trigger] candidate_delimiters()[k]).unwrap()),
{
    let c = candidate_delimiters();
    assert(c[0] == 44u8 && c[1] == 59u8 && c[2] == 9u8 && c[3] == 124u8);
}

/// The fields of a row the `csv` crate read, or `None` for a row it reported an error for.
pub open spec fn row_view(r: Result<Vec<String>, csv::Error>) -> Option<Seq<Seq<char>>> {
    match r {
        Ok(v) => Some(strings_view(v@)),
        Err(_) => None,
    }
}

/// Parses `content` with `csv::ReaderBuilder` (this delimiter, headers on,
/// flexible row lengths): the header fields, and each later row or its error.
#[verifier::external_body]
fn parse_csv(content: &str, delimiter: u8) -> (r: Result<
    (Vec<String>, Vec<Result<Vec<String>, csv::Error>>),
    csv::Error,
>)
    ensures
        r is Ok <==> csv_table(content@, delimiter) is Some,
        r matches Ok((h, rows)) ==> csv_table(content@, delimiter) == Some(
            (strings_view(h@), rows@.map_values(|x: Result<Vec<String>, csv::Error>| row_view(x))),
        ),
{
    let mut reader = csv::ReaderBuilder::new().delimiter(delimiter).has_headers(true).flexible(
        true,
    ).from_reader(content.as_bytes());
    let headers: Vec<String> = reader.headers()?.iter().map(|f| f.to_string()).collect();
    let rows = reader.records().map(|r| r.map(|rec| rec.iter().map(|f| f.to_string()).collect())).collect();
    Ok((headers, rows))
}

/// The message of a `csv` error.
#[verifier::external_body]
fn csv_error_text(e: &csv::Error) -> String {
    e.to_string()
}

/// The rows read without error, in order.
pub open spec fn kept_rows(rows: Seq<Option<Seq<Seq<char>>>>) -> Seq<Seq<Seq<char>>>
    decreases rows.len(),
{
    if rows.len() == 0 {
        Seq::empty()
    } else {
        let init = kept_rows(rows.drop_last());
        match rows.last() {
            Some(r) => init.push(r),
            None => init,
        }
    }
}

/// Reads CSV text into records, with a delimiter and a size limit per record.
pub struct CsvReader {
    delimiter: u8,
    max_record_size: usize,
}

impl CsvReader {
    /// Delimiter byte in use.
    pub closed spec fn delimiter_in_use(&self) -> u8 {
        self.delimiter
    }

    /// Largest serialized record size allowed.
    pub closed spec fn record_size_limit(&self) -> nat {
        self.max_record_size as nat
    }

    /// A reader with the chosen delimiter (`,` until detection replaces it for `Auto`).
    pub fn new(delimiter: Delimiter, max_record_size: usize) -> (r: Result<Self, String>)
        ensures
            r matches Ok(reader) && reader.delimiter_in_use() == (match delimiter_byte(delimiter) {
                Some(b) => b,
                None => 44u8,
            }) && reader.record_size_limit() == max_record_size,
    {
        let d = match delimiter.to_byte() {
            Some(b) => b,
            None => 44u8,
        };
        Ok(CsvReader { delimiter: d, max_record_size })
    }

    /// Decodes a whole file's bytes and parses them with delimiter `delim`
    /// into the header row and the data rows; rows the parser reports an
    /// error for are skipped. Fails only when the header row cannot be read.
    pub fn read_content(&mut self, content: &[u8], delim: u8) -> (r: Result<CsvIterator, String>)
        requires
            decodable(content@),
        ensures
            final(self).delimiter_in_use() == delim,
            final(self).record_size_limit() == old(self).record_size_limit(),
            r is Ok <==> csv_table(decoded_text(content@), delim) is Some,
            r matches Ok(it) ==> {
                let t = csv_table(decoded_text(content@), delim).unwrap();
                &&& it.header_fields() == t.0
                &&& it.rows() == kept_rows(t.1)
                &&& it.position() == 0
                &&& it.size_limit() == old(self).record_size_limit()
            },
            r matches Err(m) ==> m@.take("读取表头失败: "@.len() as int) == "读取表头失败: "@,
    {
        self.delimiter = delim;
        let text = match decode_bytes(content) {
            Ok(t) => t,
            Err(e) => return Err(e),
        };
        let parsed = parse_csv(text.as_str(), delim);
        match parsed {
            Err(e) => {
                let mut m = String::from_str("读取表头失败: ");
                let et = csv_error_text(&e);
                m.append(et.as_str());
                proof {
                    reveal_strlit("读取表头失败: ");
                    assert(m@.take("读取表头失败: "@.len() as int) =~= "读取表头失败: "@);
                }
                Err(m)
            },
            Ok((headers, rows)) => {
                let ghost rv = rows@.map_values(|x: Result<Vec<String>, csv::Error>| row_view(x));
                let mut records: Vec<Vec<String>> = Vec::new();
                let n = rows.len();
                for i in 0..n
                    invariant
                        n == rows@.len(),
                        rv == rows@.map_values(|x: Result<Vec<String>, csv::Error>| row_view(x)),
                        records@.map_values(|v: Vec<String>| strings_view(v@)) == kept_rows(
                            rv.take(i as int),
                        ),
                {
                    proof {
                        assert(rv.take(i + 1).drop_last() =~= rv.take(i as int));
                    }
                    match &rows[i] {
                        Ok(fields) => {
                            records.push(fields.clone());
                            proof {
                                assert(records@.map_values(|v: Vec<String>| strings_view(v@))
                                    =~= kept_rows(rv.take(i as int)).push(strings_view(fields@)));
                            }
                        },
                        Err(_) => {},
                    }
                }
                proof {
                    assert(rv.take(n as int) =~= rv);
                }
                Ok(CsvIterator { headers, records, current: 0, max_record_size: self.max_record_size })
            },
        }
    }
}

/// The data rows of a parsed file, handed out one at a time as JSON records.
pub struct CsvIterator {
    pub headers: Vec<String>,
    records: Vec<Vec<String>>,
    current: usize,
    max_record_size: usize,
}

impl CsvIterator {
    /// The header fields.
    pub closed spec fn header_fields(&self) -> Seq<Seq<char>> {
        strings_view(self.headers@)
    }

    /// The data rows.
    pub closed spec fn rows(&self) -> Seq<Seq<Seq<char>>> {
        self.records@.map_values(|v: Vec<String>| strings_view(v@))
    }

    /// Index of the next row to hand out.
    pub closed spec fn position(&self) -> nat {
        self.current as nat
    }

    /// Largest serialized record size allowed.
    pub closed spec fn size_limit(&self) -> nat {
        self.max_record_size as nat
    }

    /// Hands out the next row as a JSON record: each field keyed by its
    /// column's header, or `field_{i}` beyond the headers. The record comes
    /// back exactly when its JSON text fits the size limit in bytes; else the
    /// size error.
    /// `None` once every row has been handed out.
    pub fn next_record(&mut self) -> (r: Option<Result<JsonRecord, String>>)
        ensures
            final(self).header_fields() == old(self).header_fields(),
            final(self).rows() == old(self).rows(),
            final(self).size_limit() == old(self).size_limit(),
            old(self).position() >= old(self).rows().len() ==> r is None && final(self).position()
                == old(self).position(),
            old(self).position() < old(self).rows().len() ==> {
                let pairs = record_fields(
                    old(self).header_fields(),
                    old(self).rows()[old(self).position() as int],
                );
                &&& final(self).position() == old(self).position() + 1
                &&& r is Some
                &&& (r->0 is Ok <==> json_size(pairs) <= old(self).size_limit())
                &&& r->0 matches Ok(rec) ==> rec.pairs() == pairs
                &&& r->0 matches Err(m) ==> m@ == oversize_message(
                    old(self).size_limit(),
                    json_size(pairs),
                )
            },
    {
        if self.current >= self.records.len() {
            return None;
        }
        let row = &self.records[self.current];
        self.current = self.current + 1;
        let mut fields: Vec<(String, String)> = Vec::new();
        let n = row.len();
        for i in 0..n
            invariant
                n == row@.len(),
                pairs_view(fields@) =~= record_fields(strings_view(self.headers@), strings_view(row@)).take(i as int),
        {
            let key = if i < self.headers.len() {
                self.headers[i].clone()
            } else {
                let mut k = String::from_str("field_");
                push_decimal(&mut k, i as u64);
                k
            };
            proof {
                assert(key@ == field_key(strings_view(self.headers@), i as nat));
            }
            let value = row[i].clone();
            let ghost before = fields@;
            fields.push((key, value));
            proof {
                assert(value@ == strings_view(row@)[i as int]);
                assert(pairs_view(fields@) =~= pairs_view(before).push((key@, value@)));
                assert(pairs_view(fields@) =~= record_fields(strings_view(self.headers@), strings_view(row@)).take(i + 1));
            }
        }
        proof {
            assert(record_fields(strings_view(self.headers@), strings_view(row@)).take(n as int) =~= record_fields(strings_view(self.headers@), strings_view(row@)));
        }
        let serialized = match object_to_json(&fields) {
            Ok(text) => Ok(text),
            Err(e) => Err(json_error_text(&e)),
        };
        Some(size_checked(JsonRecord { fields }, serialized, self.max_record_size))
    }

    /// Number of data rows.
    pub fn total_rows(&self) -> (n: usize)
        ensures
            n == self.rows().len(),
    {
        self.records.len()
    }
}


/// Key of column `i`: its header, or `field_{i}` beyond the headers.
pub open spec fn field_key(headers: Seq<Seq<char>>, i: nat) -> Seq<char> {
    if i < headers.len() {
        headers[i as int]
    } else {
        "field_"@ + decimal(i)
    }
}

/// A row's fields keyed by column.
pub open spec fn record_fields(headers: Seq<Seq<char>>, row: Seq<Seq<char>>) -> Seq<
    (Seq<char>, Seq<char>),
> {
    Seq::new(row.len(), |i: int| (field_key(headers, i as nat), row[i]))
}

/// A record has one pair per field of its row, in column order: the value
/// is the field's text, empty or not, and the key is the column's header,
/// or `field_` and the column number for columns beyond the headers.
pub proof fn lemma_record_fields_per_column(headers: Seq<Seq<char>>, row: Seq<Seq<char>>)
    ensures
        record_fields(headers, row).len() == row.len(),
        forall|i: int|
            0 <= i < row.len() ==> (#[trigger] record_fields(headers, row)[i]).1 == row[i],
        forall|i: int|
            0 <= i < row.len() && i < headers.len() ==> (#[trigger] record_fields(
                headers,
                row,
            )[i]).0 == headers[i],
        forall|i: int|
            0 <= i < row.len() && i >= headers.len() ==> (#[trigger] record_fields(
                headers,
                row,
            )[i]).0 == "field_"@ + decimal(i as nat),
{
}

/// Size in bytes of the JSON text of these fields.
pub open spec fn json_size(pairs: Seq<(Seq<char>, Seq<char>)>) -> nat {
    encode_utf8(json_object_text(pairs)).len()
}

/// The error for a record whose JSON text exceeds the limit.
pub open spec fn oversize_message(limit: nat, actual: nat) -> Seq<char> {
    "记录超过最大大小 "@ + decimal(limit) + " bytes (实际: "@ + decimal(actual) + " bytes)"@
}

/// Reading back the size error: after `"记录超过最大大小 "` comes the limit,
/// then `" bytes (实际: "` and the actual size, then `" bytes)"`; each
/// number reads back as the value it shows.
pub proof fn lemma_oversize_message_reads_back(limit: nat, actual: nat)
    ensures
        ({
            let m = oversize_message(limit, actual);
            let i1 = "记录超过最大大小 "@.len() as int;
            let i2 = i1 + decimal(limit).len();
            let i3 = i2 + " bytes (实际: "@.len();
            let i4 = i3 + decimal(actual).len();
            &&& m.len() == i4 + " bytes)"@.len()
            &&& m.subrange(0, i1) == "记录超过最大大小 "@
            &&& digits_value(m.subrange(i1, i2)) == limit
            &&& m.subrange(i2, i3) == " bytes (实际: "@
            &&& digits_value(m.subrange(i3, i4)) == actual
            &&& m.subrange(i4, m.len() as int) == " bytes)"@
        }),
{
    let m = oversize_message(limit, actual);
    let i1 = "记录超过最大大小 "@.len() as int;
    let i2 = i1 + decimal(limit).len();
    let i3 = i2 + " bytes (实际: "@.len();
    let i4 = i3 + decimal(actual).len();
    lemma_digits_value_decimal(limit);
    lemma_digits_value_decimal(actual);
    assert(m.subrange(0, i1) =~= "记录超过最大大小 "@);
    assert(m.subrange(i1, i2) =~= decimal(limit));
    assert(m.subrange(i2, i3) =~= " bytes (实际: "@);
    assert(m.subrange(i3, i4) =~= decimal(actual));
    assert(m.subrange(i4, m.len() as int) =~= " bytes)"@);
}

/// Accepts a record whose JSON text (`serialized`, or the message of the
/// serialization error) fits within `max_record_size` bytes; otherwise
/// gives the size error, or the serialization error prefixed.
pub fn size_checked(record: JsonRecord, serialized: Result<String, String>, max_record_size: usize) -> (r: Result<JsonRecord, String>)
    ensures
        match serialized {
            Ok(text) => if encode_utf8(text@).len() > max_record_size {
                r matches Err(m) && m@ == oversize_message(max_record_size as nat, encode_utf8(text@).len())
            } else {
                r == Ok::<JsonRecord, String>(record)
            },
            Err(e) => r matches Err(m) && m@ == "序列化 JSON 失败: "@ + e@,
        },
{
    match serialized {
        Ok(text) => {
            let len = text.as_str().as_bytes().len();
            if len > max_record_size {
                let mut m = String::from_str("记录超过最大大小 ");
                push_decimal(&mut m, max_record_size as u64);
                m.append(" bytes (实际: ");
                push_decimal(&mut m, len as u64);
                m.append(" bytes)");
                proof {
                    assert(m@ =~= oversize_message(max_record_size as nat, encode_utf8(text@).len()));
                }
                Err(m)
            } else {
                Ok(record)
            }
        },
        Err(e) => {
            let mut m = String::from_str("序列化 JSON 失败: ");
            m.append(e.as_str());
            Err(m)
        },
    }
}

} // verus!
