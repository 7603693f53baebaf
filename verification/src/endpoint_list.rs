//! The plain-text endpoint list from which the offline tool signs a relay directory: one
//! endpoint per line, as four fields separated by white space (hexadecimal endpoint ID,
//! decimal priority, WebSocket URL, HTTPS URL). Blank lines and lines whose first field
//! starts with `#` are skipped.
use crate::hex::{decode_hex, spec_decode_hex, HexError};
use crate::primitives::string_from_chars;
use crate::transport::{endpoint_views, EndpointView, RelayEndpoint};
use vstd::prelude::*;
use vstd::string::StringSliceAdditionalSpecFns;
use vstd::utf8::*;

verus! {

#[derive(Clone, Copy, Debug, PartialEq, Eq, Structural)]
pub enum EndpointListError {
    /// The line, counted from 1, holds other than four fields.
    FieldCount(usize),
    /// The endpoint ID is not hexadecimal.
    InvalidId(HexError),
    /// The endpoint ID does not spell 16 bytes.
    IdLength,
    /// The priority is not a decimal number below 65536.
    InvalidPriority,
    /// No line names an endpoint.
    NoEndpoints,
}

// ---------------------------------------------------------------------------
// Characters, white space, lines and fields
// ---------------------------------------------------------------------------
/// Unicode's `White_Space` characters, which `char::is_white_space` accepts.
pub open spec fn white_space(c: char) -> bool {
    ||| '\t' <= c <= '\r'
    ||| c == ' '
    ||| c == '\u{85}'
    ||| c == '\u{a0}'
    ||| c == '\u{1680}'
    ||| '\u{2000}' <= c <= '\u{200a}'
    ||| c == '\u{2028}'
    ||| c == '\u{2029}'
    ||| c == '\u{202f}'
    ||| c == '\u{205f}'
    ||| c == '\u{3000}'
}

/// Whether a character is white space.
pub fn is_white_space(c: char) -> (r: bool)
    ensures
        r == white_space(c),
{
    ('\t' <= c && c <= '\r') || c == ' ' || c == '\u{85}' || c == '\u{a0}' || c == '\u{1680}' || (
    '\u{2000}' <= c && c <= '\u{200a}') || c == '\u{2028}' || c == '\u{2029}' || c == '\u{202f}'
        || c == '\u{205f}' || c == '\u{3000}'
}

/// The pieces of `s` between separators, with `cur` the piece begun before `s`. With
/// `keep_empty` every piece counts (lines between line feeds); without, only non-empty
/// pieces count (fields between runs of white space).
pub open spec fn pieces_from(s: Seq<char>, cur: Seq<char>, keep_empty: bool) -> Seq<Seq<char>>
    decreases s.len(),
{
    if s.len() == 0 {
        if keep_empty || cur.len() > 0 {
            seq![cur]
        } else {
            Seq::empty()
        }
    } else if is_separator(s[0], keep_empty) {
        (if keep_empty || cur.len() > 0 {
            seq![cur]
        } else {
            Seq::empty()
        }) + pieces_from(s.drop_first(), Seq::empty(), keep_empty)
    } else {
        pieces_from(s.drop_first(), cur.push(s[0]), keep_empty)
    }
}

/// The separator of lines is the line feed; that of fields is white space.
pub open spec fn is_separator(c: char, lines: bool) -> bool {
    if lines {
        c == '\n'
    } else {
        white_space(c)
    }
}

/// The lines of a text, split at line feeds.
pub open spec fn text_lines(s: Seq<char>) -> Seq<Seq<char>> {
    pieces_from(s, Seq::empty(), true)
}

/// The fields of a line: its maximal runs of characters other than white space.
pub open spec fn words(s: Seq<char>) -> Seq<Seq<char>> {
    pieces_from(s, Seq::empty(), false)
}

/// The view of a vector of character vectors.
pub open spec fn char_vecs(v: Seq<Vec<char>>) -> Seq<Seq<char>> {
    v.map_values(|x: Vec<char>| x@)
}

/// The characters of a string.
fn text_chars(text: &str) -> (r: Vec<char>)
    ensures
        r@ == text@,
{
    broadcast use vstd::string::axiom_spec_iter;

    let mut out: Vec<char> = Vec::new();
    for c in it: text.chars()
        invariant
            it.seq() == text@,
            out@ == it.seq().take(it.index() as int),
    {
        assert(it.seq().take(it.index() + 1) == it.seq().take(it.index() as int).push(c));
        out.push(c);
    }
    out
}

/// Splits characters into pieces, as `pieces_from` with nothing begun.
fn split_pieces(s: &Vec<char>, keep_empty: bool) -> (r: Vec<Vec<char>>)
    ensures
        char_vecs(r@) == pieces_from(s@, Seq::empty(), keep_empty),
{
    let n = s.len();
    let mut out: Vec<Vec<char>> = Vec::new();
    let mut cur: Vec<char> = Vec::new();
    let mut i: usize = 0;
    assert(s@.subrange(0, n as int) =~= s@);
    assert(char_vecs(out@) + pieces_from(s@, cur@, keep_empty) =~= pieces_from(s@, cur@, keep_empty));
    assert(cur@ =~= Seq::<char>::empty());
    while i < n
        invariant
            n == s@.len(),
            0 <= i <= n,
            char_vecs(out@) + pieces_from(s@.subrange(i as int, n as int), cur@, keep_empty)
                == pieces_from(s@, Seq::empty(), keep_empty),
        decreases n - i,
    {
        let ghost rest = s@.subrange(i as int, n as int);
        assert(rest.drop_first() =~= s@.subrange(i + 1, n as int));
        assert(rest[0] == s@[i as int]);
        let c = s[i];
        let sep = if keep_empty {
            c == '\n'
        } else {
            is_white_space(c)
        };
        if sep {
            let ghost before = char_vecs(out@);
            if keep_empty || cur.len() > 0 {
                let piece = cur;
                out.push(piece);
                assert(char_vecs(out@) =~= before + seq![piece@]);
            } else {
                assert(char_vecs(out@) =~= before + Seq::<Seq<char>>::empty());
            }
            cur = Vec::new();
            assert(cur@ =~= Seq::<char>::empty());
        } else {
            cur.push(c);
        }
        i = i + 1;
    }
    assert(s@.subrange(n as int, n as int) =~= Seq::<char>::empty());
    if keep_empty || cur.len() > 0 {
        let ghost before = char_vecs(out@);
        let piece = cur;
        out.push(piece);
        assert(char_vecs(out@) =~= before + seq![piece@]);
    } else {
        assert(char_vecs(out@) =~= char_vecs(out@) + Seq::<Seq<char>>::empty());
    }
    out
}

// ---------------------------------------------------------------------------
// Priorities
// ---------------------------------------------------------------------------
/// Every character is an ASCII digit.
pub open spec fn all_digits(s: Seq<char>) -> bool {
    forall|i: int| 0 <= i < s.len() ==> '0' <= #[trigger] s[i] <= '9'
}

/// The number that decimal digits spell.
pub open spec fn decimal_value(s: Seq<char>) -> int
    decreases s.len(),
{
    if s.len() == 0 {
        0
    } else {
        decimal_value(s.drop_last()) * 10 + (s.last() as int - 48)
    }
}

/// The digits of an unsigned number: a leading `+` is allowed.
pub open spec fn unsigned_digits(s: Seq<char>) -> Seq<char> {
    if s.len() > 0 && s[0] == '+' {
        s.drop_first()
    } else {
        s
    }
}

/// A `u16` as `str::parse` reads it: an optional `+`, then one or more decimal digits
/// whose value fits.
pub open spec fn spec_parse_u16(s: Seq<char>) -> Option<u16> {
    let d = unsigned_digits(s);
    if d.len() > 0 && all_digits(d) && decimal_value(d) <= 65535 {
        Some(decimal_value(d) as u16)
    } else {
        None
    }
}

proof fn lemma_decimal_grows(s: Seq<char>, i: int)
    requires
        all_digits(s),
        0 <= i <= s.len(),
    ensures
        decimal_value(s.take(i)) <= decimal_value(s),
        decimal_value(s) >= 0,
    decreases s.len(),
{
    if s.len() > 0 {
        assert(all_digits(s.drop_last())) by {
            assert forall|k: int| 0 <= k < s.drop_last().len() implies '0' <= #[trigger] s.drop_last()[k]
                <= '9' by {
                assert(s.drop_last()[k] == s[k]);
            }
        }
        assert('0' <= s[s.len() - 1] <= '9');
        if i == s.len() {
            assert(s.take(i) =~= s);
            lemma_decimal_grows(s.drop_last(), 0);
        } else {
            assert(s.take(i) =~= s.drop_last().take(i));
            lemma_decimal_grows(s.drop_last(), i);
        }
    } else {
        assert(s.take(i) =~= s);
    }
}

/// Reads a priority.
fn parse_u16(s: &Vec<char>) -> (r: Option<u16>)
    ensures
        r == spec_parse_u16(s@),
{
    let n = s.len();
    let start: usize = if n > 0 && s[0] == '+' {
        1
    } else {
        0
    };
    let ghost d = unsigned_digits(s@);
    assert(d =~= s@.subrange(start as int, n as int));
    if start == n {
        return None;
    }
    let mut acc: u32 = 0;
    let mut i: usize = start;
    while i < n
        invariant
            start <= i <= n,
            n == s@.len(),
            d == s@.subrange(start as int, n as int),
            d == unsigned_digits(s@),
            d.len() > 0,
            acc == decimal_value(d.take(i - start)),
            acc <= 65535,
            all_digits(d.take(i - start)),
        decreases n - i,
    {
        let c = s[i];
        let k = i - start;
        assert(d[k as int] == c);
        if !('0' <= c && c <= '9') {
            assert(!('0' <= d[k as int] <= '9'));
            assert(!all_digits(d));
            return None;
        }
        let digit = (c as u32) - 48;
        let next = acc * 10 + digit;
        assert(d.take(k + 1).drop_last() =~= d.take(k as int));
        assert(d.take(k + 1).last() == c);
        assert(next == decimal_value(d.take(k + 1)));
        assert(all_digits(d.take(k + 1))) by {
            assert forall|j: int| 0 <= j < d.take(k + 1).len() implies '0' <= #[trigger] d.take(k + 1)[j]
                <= '9' by {
                if j < k {
                    assert(d.take(k + 1)[j] == d.take(k as int)[j]);
                }
            }
        }
        if next > 65535 {
            proof {
                if all_digits(d) {
                    lemma_decimal_grows(d, k + 1);
                }
            }
            return None;
        }
        acc = next;
        i = i + 1;
    }
    assert(d.take(n - start) =~= d);
    Some(acc as u16)
}

// ---------------------------------------------------------------------------
// The list
// ---------------------------------------------------------------------------
/// What one line gives: nothing for a blank or commented line, else an endpoint or the
/// error of its first bad field. `number` counts lines from 1.
pub open spec fn line_entry(line: Seq<char>, number: int) -> Result<Option<EndpointView>, EndpointListError> {
    let w = words(line);
    if w.len() == 0 || w[0][0] == '#' {
        Ok(None)
    } else if w.len() != 4 {
        Err(EndpointListError::FieldCount(number as usize))
    } else {
        match spec_decode_hex(encode_utf8(w[0])) {
            Err(e) => Err(EndpointListError::InvalidId(e)),
            Ok(id) => if id.len() != 16 {
                Err(EndpointListError::IdLength)
            } else {
                match spec_parse_u16(w[1]) {
                    None => Err(EndpointListError::InvalidPriority),
                    Some(priority) => Ok(
                        Some(EndpointView { endpoint_id: id, websocket_url: w[2], https_url: w[3], priority }),
                    ),
                }
            },
        }
    }
}

/// The endpoints of the lines in order, or the error of the first bad line.
pub open spec fn parse_lines(lines: Seq<Seq<char>>) -> Result<Seq<EndpointView>, EndpointListError>
    decreases lines.len(),
{
    if lines.len() == 0 {
        Ok(Seq::empty())
    } else {
        match parse_lines(lines.drop_last()) {
            Err(e) => Err(e),
            Ok(found) => match line_entry(lines.last(), lines.len() as int) {
                Err(e) => Err(e),
                Ok(None) => Ok(found),
                Ok(Some(endpoint)) => Ok(found.push(endpoint)),
            },
        }
    }
}

/// What `parse_endpoint_list` gives for a text: its endpoints, in the order of the lines,
/// unless a line is bad or none names an endpoint.
pub open spec fn spec_parse_endpoint_list(text: Seq<char>) -> Result<Seq<EndpointView>, EndpointListError> {
    match parse_lines(text_lines(text)) {
        Err(e) => Err(e),
        Ok(found) => if found.len() == 0 {
            Err(EndpointListError::NoEndpoints)
        } else {
            Ok(found)
        },
    }
}

/// Reads one line.
fn read_line(line: &Vec<char>, number: usize) -> (r: Result<Option<RelayEndpoint>, EndpointListError>)
    ensures
        match line_entry(line@, number as int) {
            Ok(None) => r == Ok::<Option<RelayEndpoint>, EndpointListError>(None),
            Ok(Some(v)) => r matches Ok(Some(e)) && e@ == v,
            Err(x) => r == Err::<Option<RelayEndpoint>, EndpointListError>(x),
        },
{
    let fields = split_pieces(line, false);
    let ghost w = words(line@);
    assert(char_vecs(fields@) == w);
    if fields.len() == 0 {
        return Ok(None);
    }
    assert(fields@[0]@ == w[0]);
    proof {
        lemma_pieces_nonempty(line@, Seq::empty(), 0);
    }
    if fields[0][0] == '#' {
        return Ok(None);
    }
    if fields.len() != 4 {
        return Err(EndpointListError::FieldCount(number));
    }
    assert(fields@[1]@ == w[1] && fields@[2]@ == w[2] && fields@[3]@ == w[3]);
    let id_text = string_from_chars(fields[0].as_slice());
    let id = match decode_hex(id_text.as_str()) {
        Ok(id) => id,
        Err(e) => return Err(EndpointListError::InvalidId(e)),
    };
    if id.len() != 16 {
        return Err(EndpointListError::IdLength);
    }
    let priority = match parse_u16(&fields[1]) {
        Some(p) => p,
        None => return Err(EndpointListError::InvalidPriority),
    };
    let endpoint_id = crate::bytes::array16_at(id.as_slice(), 0);
    assert(endpoint_id@ =~= id@);
    let websocket_url = string_from_chars(fields[2].as_slice());
    let https_url = string_from_chars(fields[3].as_slice());
    Ok(Some(RelayEndpoint { endpoint_id, websocket_url, https_url, priority }))
}

proof fn lemma_pieces_nonempty(s: Seq<char>, cur: Seq<char>, k: int)
    ensures
        0 <= k < pieces_from(s, cur, false).len() ==> pieces_from(s, cur, false)[k].len() > 0,
    decreases s.len(),
{
    if s.len() > 0 {
        if is_separator(s[0], false) {
            lemma_pieces_nonempty(s.drop_first(), Seq::empty(), k - (if cur.len() > 0 { 1int } else { 0 }));
        } else {
            lemma_pieces_nonempty(s.drop_first(), cur.push(s[0]), k);
        }
    }
}

/// Reads a plain-text endpoint list.
pub fn parse_endpoint_list(text: &str) -> (r: Result<Vec<RelayEndpoint>, EndpointListError>)
    ensures
        match spec_parse_endpoint_list(text@) {
            Ok(v) => r matches Ok(e) && endpoint_views(e@) == v,
            Err(x) => r == Err::<Vec<RelayEndpoint>, EndpointListError>(x),
        },
{
    let chars = text_chars(text);
    let lines = split_pieces(&chars, true);
    let ghost ls = text_lines(text@);
    assert(char_vecs(lines@) == ls);
    let mut found: Vec<RelayEndpoint> = Vec::new();
    let mut k: usize = 0;
    assert(ls.take(0) =~= Seq::<Seq<char>>::empty());
    assert(endpoint_views(found@) =~= Seq::<EndpointView>::empty());
    while k < lines.len()
        invariant
            0 <= k <= lines@.len(),
            char_vecs(lines@) == ls,
            ls == text_lines(text@),
            parse_lines(ls.take(k as int)) == Ok::<Seq<EndpointView>, EndpointListError>(endpoint_views(found@)),
        decreases lines@.len() - k,
    {
        let ghost before = found@;
        assert(ls.take(k + 1).drop_last() =~= ls.take(k as int));
        assert(ls.take(k + 1).last() == lines@[k as int]@);
        match read_line(&lines[k], k + 1) {
            Err(e) => {
                proof {
                    assert(parse_lines(ls.take(k + 1)) == Err::<Seq<EndpointView>, EndpointListError>(e));
                    lemma_parse_lines_err(ls, k as int + 1);
                }
                return Err(e);
            },
            Ok(None) => {},
            Ok(Some(endpoint)) => {
                found.push(endpoint);
                assert(endpoint_views(found@) =~= endpoint_views(before).push(endpoint@));
            },
        }
        k = k + 1;
    }
    assert(ls.take(lines@.len() as int) =~= ls);
    if found.len() == 0 {
        return Err(EndpointListError::NoEndpoints);
    }
    Ok(found)
}

/// An error in the first `k` lines is the error of all of them.
proof fn lemma_parse_lines_err(ls: Seq<Seq<char>>, k: int)
    requires
        0 <= k <= ls.len(),
        parse_lines(ls.take(k)) is Err,
    ensures
        parse_lines(ls) == parse_lines(ls.take(k)),
    decreases ls.len() - k,
{
    if k == ls.len() {
        assert(ls.take(k) =~= ls);
    } else {
        assert(ls.take(k + 1).drop_last() =~= ls.take(k));
        lemma_parse_lines_err(ls, k + 1);
    }
}

} // verus!
