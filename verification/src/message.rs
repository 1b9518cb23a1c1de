//! The MQTT text that carries new relay settings, and the text of a sensor
//! reading. Texts are handled as their UTF-8 bytes; every separator is ASCII,
//! so splitting bytes splits the text at the same places.

use vstd::prelude::*;

verus! {

/// Whether `pat` occurs in `s` at index `i`.
pub open spec fn matches_at(s: Seq<u8>, pat: Seq<u8>, i: int) -> bool {
    0 <= i && i + pat.len() <= s.len() && s.subrange(i, i + pat.len()) == pat
}

/// The first index, from `i` on, where `pat` occurs in `s`.
pub open spec fn find_from(s: Seq<u8>, pat: Seq<u8>, i: int) -> Option<int>
    decreases s.len() + 1 - i,
{
    if i < 0 || i + pat.len() > s.len() {
        None
    } else if matches_at(s, pat, i) {
        Some(i)
    } else {
        find_from(s, pat, i + 1)
    }
}

/// The first index where `pat` occurs in `s`.
pub open spec fn find(s: Seq<u8>, pat: Seq<u8>) -> Option<int> {
    find_from(s, pat, 0)
}

/// What comes before the first `sep` in `s`; all of `s` where there is none.
pub open spec fn first_field(s: Seq<u8>, sep: Seq<u8>) -> Seq<u8> {
    match find(s, sep) {
        Some(i) => s.take(i),
        None => s,
    }
}

/// What lies between the first and the second `sep` in `s` (up to the end
/// where there is no second); `None` where `sep` does not occur.
pub open spec fn second_field(s: Seq<u8>, sep: Seq<u8>) -> Option<Seq<u8>> {
    match find(s, sep) {
        Some(i) => Some(first_field(s.skip(i + sep.len()), sep)),
        None => None,
    }
}

/// `s` without the bytes `b` at its start.
pub open spec fn trim_start(s: Seq<u8>, b: u8) -> Seq<u8>
    decreases s.len(),
{
    if s.len() > 0 && s[0] == b {
        trim_start(s.drop_first(), b)
    } else {
        s
    }
}

/// `s` without the bytes `b` at its end.
pub open spec fn trim_end(s: Seq<u8>, b: u8) -> Seq<u8>
    decreases s.len(),
{
    if s.len() > 0 && s.last() == b {
        trim_end(s.drop_last(), b)
    } else {
        s
    }
}

/// `s` without the bytes `b` at either end.
pub open spec fn trim_matches(s: Seq<u8>, b: u8) -> Seq<u8> {
    trim_end(trim_start(s, b), b)
}

/// The pieces of `s` between the occurrences of `sep`, found from the left
/// without overlap; a text without `sep` is one piece.
pub open spec fn split(s: Seq<u8>, sep: Seq<u8>) -> Seq<Seq<u8>>
    decreases s.len(),
{
    if sep.len() == 0 {
        seq![s]
    } else {
        match find(s, sep) {
            Some(i) => {
                proof {
                    lemma_find_from_bounds(s, sep, 0);
                }
                seq![s.take(i)] + split(s.skip(i + sep.len()), sep)
            },
            None => seq![s],
        }
    }
}

/// An ASCII decimal digit.
pub open spec fn is_digit(b: u8) -> bool {
    48 <= b <= 57
}

/// The number that a string of decimal digits writes.
pub open spec fn digits_value(d: Seq<u8>) -> nat
    decreases d.len(),
{
    if d.len() == 0 {
        0
    } else {
        digits_value(d.drop_last()) * 10 + (d.last() - 48) as nat
    }
}

/// The digits of an unsigned number: the text after a leading `+`, if any.
pub open spec fn unsigned_digits(s: Seq<u8>) -> Seq<u8> {
    if s.len() > 0 && s[0] == 43 {
        s.drop_first()
    } else {
        s
    }
}

/// A byte read as Rust reads a `u8` from text: an optional `+`, then at least
/// one decimal digit, and a value that fits in a byte.
pub open spec fn parse_u8(s: Seq<u8>) -> Option<u8> {
    let d = unsigned_digits(s);
    if d.len() > 0 && (forall|i: int| 0 <= i < d.len() ==> is_digit(#[trigger] d[i]))
        && digits_value(d) <= 255 {
        Some(digits_value(d) as u8)
    } else {
        None
    }
}

/// The byte that a piece of text stands for; 0 where it is not a byte.
pub open spec fn byte_or_zero(s: Seq<u8>) -> u8 {
    match parse_u8(s) {
        Some(b) => b,
        None => 0,
    }
}

/// The bytes that a list of pieces stands for, piece by piece.
pub open spec fn bytes_of_pieces(pieces: Seq<Seq<u8>>) -> Seq<u8> {
    pieces.map_values(|piece: Seq<u8>| byte_or_zero(piece))
}

/// `data: `, after which a received message shows its data.
pub open spec fn data_marker() -> Seq<u8> {
    seq![100u8, 97, 116, 97, 58, 32]
}

/// `, details:`, which follows the data of a received message.
pub open spec fn details_marker() -> Seq<u8> {
    seq![44u8, 32, 100, 101, 116, 97, 105, 108, 115, 58]
}

/// `, `, which separates the bytes of a list.
pub open spec fn list_separator() -> Seq<u8> {
    seq![44u8, 32]
}

/// The bytes that a received message carries: the text between the first and
/// the second `data: ` (or the end), cut at the first `, details:`, stripped
/// of `[` and then of `]` at both ends, split at `, `, each piece read as a
/// byte or 0. `None` where the message has no `data: `.
pub open spec fn payload_data(payload: Seq<u8>) -> Option<Seq<u8>> {
    match second_field(payload, data_marker()) {
        Some(field) => {
            let data = first_field(field, details_marker());
            let list = trim_matches(trim_matches(data, 91), 93);
            Some(bytes_of_pieces(split(list, list_separator())))
        },
        None => None,
    }
}

/// The decimal digits of `n`, without leading zeros.
pub open spec fn decimal(n: nat) -> Seq<u8>
    decreases n,
{
    if n < 10 {
        seq![(48 + n) as u8]
    } else {
        decimal(n / 10).push((48 + n % 10) as u8)
    }
}

/// Where `find_from` finds `pat`, it does occur there, at or after `i`.
pub proof fn lemma_find_from_bounds(s: Seq<u8>, pat: Seq<u8>, i: int)
    ensures
        find_from(s, pat, i) matches Some(j) ==> i <= j && 0 <= j && j + pat.len() <= s.len()
            && matches_at(s, pat, j),
    decreases s.len() + 1 - i,
{
    if i < 0 || i + pat.len() > s.len() {
    } else if matches_at(s, pat, i) {
    } else {
        lemma_find_from_bounds(s, pat, i + 1);
    }
}

/// Whether `pat` occurs in `s` at index `i`.
fn matches_at_exec(s: &[u8], pat: &[u8], i: usize) -> (r: bool)
    requires
        i + pat.len() <= s.len(),
    ensures
        r == matches_at(s@, pat@, i as int),
{
    let mut j: usize = 0;
    while j < pat.len()
        invariant
            j <= pat.len(),
            i + pat.len() <= s.len(),
            forall|k: int| 0 <= k < j ==> s@[i + k] == pat@[k],
        decreases pat.len() - j,
    {
        if s[i + j] != pat[j] {
            assert(s@.subrange(i as int, i + pat.len())[j as int] != pat@[j as int]);
            return false;
        }
        j = j + 1;
    }
    assert(s@.subrange(i as int, i + pat.len()) =~= pat@);
    true
}

/// The first index where `pat` occurs in `s`.
fn find_bytes(s: &[u8], pat: &[u8]) -> (r: Option<usize>)
    ensures
        r matches Some(i) ==> find(s@, pat@) == Some(i as int),
        r is None ==> find(s@, pat@) is None,
{
    if pat.len() > s.len() {
        return None;
    }
    let last = s.len() - pat.len();
    let mut i: usize = 0;
    loop
        invariant
            last + pat.len() == s.len(),
            i <= last,
            find(s@, pat@) == find_from(s@, pat@, i as int),
        decreases last - i,
    {
        if matches_at_exec(s, pat, i) {
            return Some(i);
        }
        if i == last {
            assert(find_from(s@, pat@, i + 1) is None);
            return None;
        }
        i = i + 1;
    }
}

/// The bytes of `s` from `lo` up to `hi`.
fn copy_range(s: &[u8], lo: usize, hi: usize) -> (r: Vec<u8>)
    requires
        lo <= hi <= s.len(),
    ensures
        r@ == s@.subrange(lo as int, hi as int),
{
    let mut r: Vec<u8> = Vec::new();
    let mut k = lo;
    while k < hi
        invariant
            lo <= k <= hi <= s.len(),
            r@ == s@.subrange(lo as int, k as int),
        decreases hi - k,
    {
        r.push(s[k]);
        assert(s@.subrange(lo as int, k + 1) =~= s@.subrange(lo as int, k as int).push(s@[k as int]));
        k = k + 1;
    }
    r
}

proof fn lemma_trim_start_skip(s: Seq<u8>, b: u8, k: int)
    requires
        0 <= k < s.len(),
        s[k] == b,
    ensures
        trim_start(s.skip(k), b) == trim_start(s.skip(k + 1), b),
{
    assert(s.skip(k).drop_first() =~= s.skip(k + 1));
}

proof fn lemma_trim_end_take(s: Seq<u8>, b: u8, k: int)
    requires
        0 < k <= s.len(),
        s[k - 1] == b,
    ensures
        trim_end(s.take(k), b) == trim_end(s.take(k - 1), b),
{
    assert(s.take(k).drop_last() =~= s.take(k - 1));
}

/// `s` without the bytes `b` at either end.
fn trim_byte(s: &[u8], b: u8) -> (r: Vec<u8>)
    ensures
        r@ == trim_matches(s@, b),
{
    let mut lo: usize = 0;
    assert(s@.skip(0) =~= s@);
    while lo < s.len() && s[lo] == b
        invariant
            lo <= s.len(),
            trim_start(s@, b) == trim_start(s@.skip(lo as int), b),
        decreases s.len() - lo,
    {
        proof {
            lemma_trim_start_skip(s@, b, lo as int);
        }
        lo = lo + 1;
    }
    let ghost rest = s@.skip(lo as int);
    assert(trim_start(s@, b) == rest);
    let mut hi: usize = s.len();
    assert(rest.take(rest.len() as int) =~= rest);
    while hi > lo && s[hi - 1] == b
        invariant
            lo <= hi <= s.len(),
            rest == s@.skip(lo as int),
            trim_end(rest, b) == trim_end(rest.take(hi - lo), b),
        decreases hi,
    {
        proof {
            lemma_trim_end_take(rest, b, hi - lo);
        }
        hi = hi - 1;
    }
    assert(rest.take(hi - lo) =~= s@.subrange(lo as int, hi as int));
    copy_range(s, lo, hi)
}

proof fn lemma_digits_value_prefix(d: Seq<u8>, j: int)
    requires
        0 <= j <= d.len(),
    ensures
        digits_value(d.take(j)) <= digits_value(d),
    decreases d.len(),
{
    if j == d.len() {
        assert(d.take(j) =~= d);
    } else {
        lemma_digits_value_prefix(d.drop_last(), j);
        assert(d.drop_last().take(j) =~= d.take(j));
    }
}

/// The byte that `s` writes, read as Rust reads a `u8` from text.
fn parse_byte(s: &[u8]) -> (r: Option<u8>)
    ensures
        r == parse_u8(s@),
{
    let start: usize = if s.len() > 0 && s[0] == 43 {
        1
    } else {
        0
    };
    let ghost d = unsigned_digits(s@);
    assert(d =~= s@.skip(start as int));
    if start == s.len() {
        return None;
    }
    let mut value: u32 = 0;
    let mut k: usize = start;
    assert(d.take(0) =~= Seq::<u8>::empty());
    while k < s.len()
        invariant
            start <= k <= s.len(),
            start < s.len(),
            d == unsigned_digits(s@),
            d == s@.skip(start as int),
            value == digits_value(d.take(k - start)),
            value <= 255,
            forall|i: int| 0 <= i < k - start ==> is_digit(#[trigger] d[i]),
        decreases s.len() - k,
    {
        let c = s[k];
        if c < 48 || c > 57 {
            assert(!is_digit(d[k - start]));
            return None;
        }
        proof {
            let j = k - start;
            assert(d.take(j + 1).drop_last() =~= d.take(j));
            assert(d.take(j + 1).last() == c);
        }
        value = value * 10 + (c - 48) as u32;
        if value > 255 {
            proof {
                lemma_digits_value_prefix(d, k - start + 1);
            }
            return None;
        }
        k = k + 1;
    }
    assert(d.take(d.len() as int) =~= d);
    Some(value as u8)
}

/// The byte that a piece of text stands for; 0 where it is not a byte.
fn byte_or_zero_exec(s: &[u8]) -> (r: u8)
    ensures
        r == byte_or_zero(s@),
{
    match parse_byte(s) {
        Some(b) => b,
        None => 0,
    }
}

fn list_separator_bytes() -> (r: Vec<u8>)
    ensures
        r@ == list_separator(),
{
    let r = vec![44u8, 32];
    assert(r@ =~= list_separator());
    r
}

fn data_marker_bytes() -> (r: Vec<u8>)
    ensures
        r@ == data_marker(),
{
    let r = vec![100u8, 97, 116, 97, 58, 32];
    assert(r@ =~= data_marker());
    r
}

fn details_marker_bytes() -> (r: Vec<u8>)
    ensures
        r@ == details_marker(),
{
    let r = vec![44u8, 32, 100, 101, 116, 97, 105, 108, 115, 58];
    assert(r@ =~= details_marker());
    r
}

/// `s` split at each `, `, each piece read as a byte or 0.
fn split_list(s: &[u8]) -> (r: Vec<u8>)
    ensures
        r@ == bytes_of_pieces(split(s@, list_separator())),
{
    let sep = list_separator_bytes();
    let mut rest = copy_range(s, 0, s.len());
    assert(rest@ =~= s@);
    let mut out: Vec<u8> = Vec::new();
    let ghost mut pieces: Seq<Seq<u8>> = seq![];
    assert(split(s@, list_separator()) =~= pieces + split(rest@, list_separator()));
    loop
        invariant
            sep@ == list_separator(),
            split(s@, list_separator()) == pieces + split(rest@, list_separator()),
            out@ == bytes_of_pieces(pieces),
        decreases rest.len(),
    {
        match find_bytes(rest.as_slice(), sep.as_slice()) {
            Some(i) => {
                proof {
                    lemma_find_from_bounds(rest@, sep@, 0);
                }
                let piece = copy_range(rest.as_slice(), 0, i);
                let b = byte_or_zero_exec(piece.as_slice());
                let next = copy_range(rest.as_slice(), i + 2, rest.len());
                proof {
                    assert(piece@ =~= rest@.take(i as int));
                    assert(next@ =~= rest@.skip(i + 2));
                    assert(split(rest@, list_separator()) =~= seq![piece@] + split(
                        next@,
                        list_separator(),
                    ));
                    assert(pieces + split(rest@, list_separator()) =~= pieces.push(piece@) + split(
                        next@,
                        list_separator(),
                    ));
                    assert(bytes_of_pieces(pieces.push(piece@)) =~= bytes_of_pieces(pieces).push(b));
                    pieces = pieces.push(piece@);
                }
                out.push(b);
                rest = next;
            },
            None => {
                let b = byte_or_zero_exec(rest.as_slice());
                proof {
                    assert(split(rest@, list_separator()) =~= seq![rest@]);
                    assert(pieces + seq![rest@] =~= pieces.push(rest@));
                    assert(bytes_of_pieces(pieces.push(rest@)) =~= bytes_of_pieces(pieces).push(b));
                }
                out.push(b);
                return out;
            },
        }
    }
}

/// The bytes that a received MQTT message carries, read from the text that
/// the message shows: the list after `data: `, up to `, details:`, with its
/// brackets stripped; each entry that is not a byte reads as 0. `None` where
/// the text has no `data: `.
pub fn parse_payload(payload: &[u8]) -> (r: Option<Vec<u8>>)
    ensures
        match r {
            Some(v) => payload_data(payload@) == Some(v@),
            None => payload_data(payload@) is None,
        },
{
    let data_mark = data_marker_bytes();
    match find_bytes(payload, data_mark.as_slice()) {
        None => None,
        Some(i) => {
            proof {
                lemma_find_from_bounds(payload@, data_mark@, 0);
                assert(find(payload@, data_mark@) == Some(i as int));
                assert(i + data_mark@.len() <= payload@.len());
            }
            let mark_len = data_mark.len();
            assert(i + mark_len <= payload.len());
            let after = copy_range(payload, i + mark_len, payload.len());
            assert(after@ =~= payload@.skip(i + data_marker().len()));
            let field = match find_bytes(after.as_slice(), data_mark.as_slice()) {
                Some(j) => {
                    proof {
                        lemma_find_from_bounds(after@, data_mark@, 0);
                    }
                    copy_range(after.as_slice(), 0, j)
                },
                None => after,
            };
            let details = details_marker_bytes();
            let data = match find_bytes(field.as_slice(), details.as_slice()) {
                Some(k) => {
                    proof {
                        lemma_find_from_bounds(field@, details@, 0);
                    }
                    copy_range(field.as_slice(), 0, k)
                },
                None => field,
            };
            let open_trimmed = trim_byte(data.as_slice(), 91);
            let list = trim_byte(open_trimmed.as_slice(), 93);
            Some(split_list(list.as_slice()))
        },
    }
}

fn push_decimal(n: u32, out: &mut Vec<u8>)
    ensures
        final(out)@ == old(out)@ + decimal(n as nat),
    decreases n,
{
    if n >= 10 {
        push_decimal(n / 10, out);
    }
    out.push((48 + n % 10) as u8);
    proof {
        if n < 10 {
            assert(n % 10 == n);
        }
    }
}

/// The text of a sensor reading: its decimal digits.
pub fn reading_payload(raw: u16) -> (r: Vec<u8>)
    ensures
        r@ == decimal(raw as nat),
{
    let mut out: Vec<u8> = Vec::new();
    push_decimal(raw as u32, &mut out);
    assert(out@ =~= decimal(raw as nat));
    out
}

/// The decimal texts of the bytes of `v`.
pub open spec fn decimals(v: Seq<u8>) -> Seq<Seq<u8>> {
    v.map_values(|b: u8| decimal(b as nat))
}

/// The pieces joined with `sep` between each two.
pub open spec fn join(pieces: Seq<Seq<u8>>, sep: Seq<u8>) -> Seq<u8>
    decreases pieces.len(),
{
    if pieces.len() == 0 {
        seq![]
    } else if pieces.len() == 1 {
        pieces[0]
    } else {
        pieces[0] + sep + join(pieces.drop_first(), sep)
    }
}

/// A list of bytes as Rust's `{:?}` writes it: `[1, 2, 3]`.
pub open spec fn list_text(v: Seq<u8>) -> Seq<u8> {
    seq![91u8] + join(decimals(v), list_separator()) + seq![93u8]
}

/// Non-empty texts of decimal digits.
pub open spec fn all_numerals(pieces: Seq<Seq<u8>>) -> bool {
    forall|i: int|
        0 <= i < pieces.len() ==> (#[trigger] pieces[i]).len() > 0 && (forall|j: int|
            0 <= j < pieces[i].len() ==> is_digit(#[trigger] pieces[i][j]))
}

proof fn lemma_decimal(n: nat)
    ensures
        decimal(n).len() > 0,
        forall|j: int| 0 <= j < decimal(n).len() ==> is_digit(#[trigger] decimal(n)[j]),
        digits_value(decimal(n)) == n,
    decreases n,
{
    let d = decimal(n);
    if n >= 10 {
        lemma_decimal(n / 10);
        assert(d.drop_last() =~= decimal(n / 10));
        assert(d.last() - 48 == n % 10);
        assert((n / 10) * 10 + n % 10 == n);
        assert(digits_value(d) == digits_value(d.drop_last()) * 10 + (d.last() - 48) as nat);
        assert(digits_value(d.drop_last()) == n / 10);
        assert(digits_value(d) == n);
    } else {
        assert(d.drop_last() =~= Seq::<u8>::empty());
        assert(d.last() - 48 == n);
        assert(digits_value(d.drop_last()) == 0);
    }
}

/// A byte written in decimal reads back as the same byte.
pub proof fn law_parse_decimal(b: u8)
    ensures
        parse_u8(decimal(b as nat)) == Some(b),
{
    lemma_decimal(b as nat);
    let d = decimal(b as nat);
    assert(is_digit(d[0]));
    assert(unsigned_digits(d) == d);
}

proof fn lemma_decimals_numerals(v: Seq<u8>)
    ensures
        all_numerals(decimals(v)),
        decimals(v).len() == v.len(),
{
    assert forall|i: int| 0 <= i < decimals(v).len() implies (#[trigger] decimals(v)[i]).len() > 0
        && (forall|j: int|
        0 <= j < decimals(v)[i].len() ==> is_digit(#[trigger] decimals(v)[i][j])) by {
        lemma_decimal(v[i] as nat);
    }
}

proof fn lemma_bytes_of_decimals(v: Seq<u8>)
    ensures
        bytes_of_pieces(decimals(v)) == v,
{
    assert forall|i: int| 0 <= i < v.len() implies bytes_of_pieces(decimals(v))[i] == v[i] by {
        law_parse_decimal(v[i]);
    }
    assert(bytes_of_pieces(decimals(v)) =~= v);
}

proof fn lemma_find_from_skip(s: Seq<u8>, pat: Seq<u8>, i: int, n: int)
    requires
        0 <= i <= n,
        forall|p: int| i <= p < n ==> !matches_at(s, pat, p),
    ensures
        find_from(s, pat, i) == find_from(s, pat, n),
    decreases n - i,
{
    if i < n {
        if i + pat.len() > s.len() {
            assert(find_from(s, pat, n) is None);
        } else {
            assert(!matches_at(s, pat, i));
            lemma_find_from_skip(s, pat, i + 1, n);
        }
    }
}

proof fn lemma_find_first(s: Seq<u8>, pat: Seq<u8>, n: int)
    requires
        matches_at(s, pat, n),
        forall|p: int| 0 <= p < n ==> !matches_at(s, pat, p),
    ensures
        find(s, pat) == Some(n),
{
    lemma_find_from_skip(s, pat, 0, n);
}

/// Shape of a list joined from numerals: it starts and ends with a digit, holds
/// only digits, `,` and space, and each `,` is followed by a space and a digit.
proof fn lemma_join_shape(pieces: Seq<Seq<u8>>)
    requires
        pieces.len() > 0,
        all_numerals(pieces),
    ensures
        ({
            let j = join(pieces, list_separator());
            &&& j.len() > 0
            &&& is_digit(j[0])
            &&& is_digit(j.last())
            &&& forall|q: int|
                0 <= q < j.len() ==> is_digit(#[trigger] j[q]) || j[q] == 44 || j[q] == 32
            &&& forall|q: int|
                0 <= q < j.len() && #[trigger] j[q] == 44 ==> q + 2 < j.len() && j[q + 1] == 32
                    && is_digit(j[q + 2])
        }),
    decreases pieces.len(),
{
    let j = join(pieces, list_separator());
    let p0 = pieces[0];
    assert(p0.len() > 0);
    assert(forall|q: int| 0 <= q < p0.len() ==> is_digit(#[trigger] p0[q]));
    if pieces.len() == 1 {
        assert(j == p0);
    } else {
        let rest = pieces.drop_first();
        assert(all_numerals(rest)) by {
            assert forall|i: int| 0 <= i < rest.len() implies (#[trigger] rest[i]).len() > 0 && (
            forall|k: int| 0 <= k < rest[i].len() ==> is_digit(#[trigger] rest[i][k])) by {
                assert(rest[i] == pieces[i + 1]);
            }
        }
        lemma_join_shape(rest);
        let jr = join(rest, list_separator());
        assert(j == p0 + list_separator() + jr);
        let n = p0.len();
        assert forall|q: int| 0 <= q < j.len() implies is_digit(#[trigger] j[q]) || j[q] == 44
            || j[q] == 32 by {
            if q < n {
                assert(j[q] == p0[q]);
            } else if q < n + 2 {
            } else {
                assert(j[q] == jr[q - n - 2]);
            }
        }
        assert forall|q: int| 0 <= q < j.len() && #[trigger] j[q] == 44 implies q + 2 < j.len()
            && j[q + 1] == 32 && is_digit(j[q + 2]) by {
            if q < n {
                assert(j[q] == p0[q]);
            } else if q == n {
                assert(j[q + 2] == jr[0]);
            } else if q == n + 1 {
            } else {
                assert(j[q] == jr[q - n - 2]);
                assert(j[q + 1] == jr[q - n - 1]);
                assert(j[q + 2] == jr[q - n]);
            }
        }
        assert(j[0] == p0[0]);
        assert(j.last() == jr.last());
    }
}

proof fn lemma_split_join(pieces: Seq<Seq<u8>>)
    requires
        pieces.len() > 0,
        all_numerals(pieces),
    ensures
        split(join(pieces, list_separator()), list_separator()) == pieces,
    decreases pieces.len(),
{
    let sep = list_separator();
    let j = join(pieces, sep);
    let p0 = pieces[0];
    assert(forall|q: int| 0 <= q < p0.len() ==> is_digit(#[trigger] p0[q]));
    if pieces.len() == 1 {
        assert(j == p0);
        assert forall|p: int| 0 <= p < j.len() + 1 implies !matches_at(j, sep, p) by {
            if matches_at(j, sep, p) {
                assert(j.subrange(p, p + 2)[0] == sep[0]);
                assert(j[p] == p0[p]);
            }
        }
        lemma_find_from_skip(j, sep, 0, j.len() + 1int);
        assert(find(j, sep) is None);
        assert(split(j, sep) =~= seq![p0]);
        assert(pieces =~= seq![p0]);
    } else {
        let rest = pieces.drop_first();
        assert(all_numerals(rest)) by {
            assert forall|i: int| 0 <= i < rest.len() implies (#[trigger] rest[i]).len() > 0 && (
            forall|k: int| 0 <= k < rest[i].len() ==> is_digit(#[trigger] rest[i][k])) by {
                assert(rest[i] == pieces[i + 1]);
            }
        }
        lemma_split_join(rest);
        let jr = join(rest, sep);
        assert(j == p0 + sep + jr);
        let n = p0.len() as int;
        assert forall|p: int| 0 <= p < n implies !matches_at(j, sep, p) by {
            if matches_at(j, sep, p) {
                assert(j.subrange(p, p + 2)[0] == sep[0]);
                assert(j[p] == p0[p]);
            }
        }
        assert(j.subrange(n, n + 2) =~= sep);
        lemma_find_first(j, sep, n);
        assert(j.take(n) =~= p0);
        assert(j.skip(n + 2) =~= jr);
        assert(split(j, sep) == seq![p0] + split(jr, sep));
        assert(seq![p0] + rest =~= pieces);
    }
}

proof fn lemma_trim_list(j: Seq<u8>)
    requires
        j.len() > 0,
        is_digit(j[0]),
        is_digit(j.last()),
    ensures
        trim_matches(trim_matches(seq![91u8] + j + seq![93u8], 91), 93) == j,
{
    let r = seq![91u8] + j + seq![93u8];
    let inner = j + seq![93u8];
    assert(r.drop_first() =~= inner);
    assert(trim_start(inner, 91) == inner);
    assert(trim_start(r, 91) == inner);
    assert(trim_end(inner, 91) == inner);
    assert(trim_start(inner, 93) == inner);
    assert(inner.drop_last() =~= j);
    assert(trim_end(j, 93) == j);
    assert(trim_end(inner, 93) == j);
}

proof fn lemma_first_marker(prefix: Seq<u8>, tail: Seq<u8>)
    requires
        forall|i: int| !matches_at(prefix, data_marker(), i),
    ensures
        find(prefix + data_marker() + tail, data_marker()) == Some(prefix.len() as int),
{
    let d = data_marker();
    let msg = prefix + d + tail;
    let n = prefix.len() as int;
    assert forall|p: int| 0 <= p < n implies !matches_at(msg, d, p) by {
        if matches_at(msg, d, p) {
            if p + 6 <= n {
                assert(msg.subrange(p, p + 6) =~= prefix.subrange(p, p + 6));
                assert(matches_at(prefix, d, p));
            } else {
                let k = n - p;
                assert(msg.subrange(p, p + 6)[k] == d[k]);
                assert(msg[n] == 100);
            }
        }
    }
    assert(msg.subrange(n, n + 6) =~= d);
    lemma_find_first(msg, d, n);
}

proof fn lemma_data_text(r: Seq<u8>, rest: Seq<u8>)
    requires
        forall|i: int| 0 <= i < r.len() ==> #[trigger] r[i] != 100,
        forall|i: int|
            0 <= i < r.len() && #[trigger] r[i] == 44 ==> i + 2 < r.len() && r[i + 2] != 100,
    ensures
        first_field(first_field(r + details_marker() + rest, data_marker()), details_marker())
            == r,
{
    let d = data_marker();
    let t = details_marker();
    let a = r + t + rest;
    let n = r.len() as int;
    assert forall|p: int| 0 <= p < n + 10 implies !matches_at(a, d, p) by {
        if matches_at(a, d, p) {
            assert(a.subrange(p, p + 6)[0] == d[0]);
            assert(a.subrange(p, p + 6)[1] == d[1]);
            if p < n {
                assert(a[p] == r[p]);
            } else {
                assert(a[p] == t[p - n]);
                assert(a[p + 1] == t[p + 1 - n]);
            }
        }
    }
    lemma_find_from_skip(a, d, 0, n + 10);
    lemma_find_from_bounds(a, d, n + 10);
    let field = first_field(a, d);
    assert(field.len() >= n + 10);
    assert forall|i: int| 0 <= i < n + 10 implies field[i] == a[i] by {}
    assert(field.subrange(n, n + 10) =~= t);
    assert forall|p: int| 0 <= p < n implies !matches_at(field, t, p) by {
        if matches_at(field, t, p) {
            assert(field.subrange(p, p + 10)[0] == t[0]);
            assert(field.subrange(p, p + 10)[2] == t[2]);
            assert(field[p] == r[p]);
            assert(field[p + 2] == r[p + 2]);
        }
    }
    lemma_find_first(field, t, n);
    assert(field.take(n) =~= r);
}

/// A received message whose text shows, after its first `data: `, a non-empty
/// list of bytes as Rust's `{:?}` writes it, followed by `, details:`, carries
/// exactly those bytes, whatever follows.
pub proof fn law_payload_round_trip(prefix: Seq<u8>, v: Seq<u8>, rest: Seq<u8>)
    requires
        v.len() > 0,
        forall|i: int| !matches_at(prefix, data_marker(), i),
    ensures
        payload_data(prefix + data_marker() + list_text(v) + details_marker() + rest) == Some(v),
{
    let sep = list_separator();
    let pieces = decimals(v);
    lemma_decimals_numerals(v);
    lemma_join_shape(pieces);
    let j = join(pieces, sep);
    let r = list_text(v);
    let tail = r + details_marker() + rest;
    let msg = prefix + data_marker() + r + details_marker() + rest;
    assert(msg =~= prefix + data_marker() + tail);
    lemma_first_marker(prefix, tail);
    assert(msg.skip(prefix.len() + 6int) =~= tail);
    assert forall|i: int| 0 <= i < r.len() implies #[trigger] r[i] != 100 by {
        if 0 < i < r.len() - 1 {
            assert(r[i] == j[i - 1]);
        }
    }
    assert forall|i: int| 0 <= i < r.len() && #[trigger] r[i] == 44 implies i + 2 < r.len()
        && r[i + 2] != 100 by {
        if 0 < i < r.len() - 1 {
            assert(r[i] == j[i - 1]);
            assert(r[i + 2] == j[i + 1]);
        }
    }
    lemma_data_text(r, rest);
    lemma_trim_list(j);
    lemma_split_join(pieces);
    lemma_bytes_of_decimals(v);
}

} // verus!
