//! The RESP request parser: a request is an array (`*<count>\r\n`) of bulk
//! strings (`$<length>\r\n<bytes>\r\n`).

use vstd::prelude::*;
use vstd::utf8::{valid_utf8, decode_utf8};
use crate::decimal::{parse_unsigned, parse_usize, decimal_chars, append_decimal};
use crate::redis_error::{RedisError, RedisErrorView};
use crate::text::{lossy_text, ascii_upper, utf8_to_string, utf8_lossy_string, to_ascii_uppercase};

verus! {

/// The characters of each string of a sequence.
pub open spec fn texts(v: Seq<String>) -> Seq<Seq<char>> {
    v.map_values(|s: String| s@)
}

/// A text result with its texts as character sequences.
pub open spec fn text_result(r: Result<String, RedisError>) -> Result<Seq<char>, RedisErrorView> {
    match r {
        Ok(s) => Ok(s@),
        Err(e) => Err(e@),
    }
}

/// A result holding strings, with its texts as character sequences.
pub open spec fn texts_result(r: Result<Vec<String>, RedisError>) -> Result<
    Seq<Seq<char>>,
    RedisErrorView,
> {
    match r {
        Ok(v) => Ok(texts(v@)),
        Err(e) => Err(e@),
    }
}

/// The position `p >= start` of the byte just before the first `\r\n` of `b`
/// (that is, `b[p + 1] == '\r'` and `b[p + 2] == '\n'`), or `None` when no
/// such pair lies within `b`.
pub open spec fn line_end(b: Seq<u8>, p: int) -> Option<int>
    decreases b.len() - p,
{
    if p + 2 >= b.len() {
        None
    } else if b[p + 1] == 13u8 && b[p + 2] == 10u8 {
        Some(p)
    } else {
        line_end(b, p + 1)
    }
}

proof fn lemma_line_end_bounds(b: Seq<u8>, p: int)
    ensures
        line_end(b, p) matches Some(q) ==> p <= q && q + 2 < b.len() && b[q + 1] == 13u8
            && b[q + 2] == 10u8,
    decreases b.len() - p,
{
    if p + 2 < b.len() && !(b[p + 1] == 13u8 && b[p + 2] == 10u8) {
        lemma_line_end_bounds(b, p + 1);
    }
}

/// Where the scan for `\r\n` from `start` gives up.
pub open spec fn line_end_missing_pos(b: Seq<u8>, start: int) -> int {
    if start + 2 >= b.len() {
        start
    } else {
        b.len() - 2
    }
}

pub open spec fn msg_no_crlf() -> Seq<char> {
    "Out of Bytes Error: Reached end of command read from buffer before hitting a terminal CRLF, will try to read more bytes"@
}

pub open spec fn msg_array_len_utf8() -> Seq<char> {
    "Malformed Request Error: Invalid UTF8 string encoded by bytes representing number of elements in RESP array"@
}

pub open spec fn msg_array_len_int() -> Seq<char> {
    "Invalid Integer Error: Expected an integer but received non-integer string in place denoting number of elements in RESP array"@
}

pub open spec fn msg_unknown_type() -> Seq<char> {
    "Unknown RESP Data Type Error: RESP array contains an array element of invalid data type"@
}

pub open spec fn msg_array_short(n: nat) -> Seq<char> {
    "Out of Bytes Error: Reached end of bytes read from buffer into accumulator before processing expected number of RESP array elements ("@
        + decimal_chars(n) + ")"@
}

pub open spec fn msg_bulk_len_utf8() -> Seq<char> {
    "Malformed Request Error: Invalid UTF8 string encoded by bytes representing number of elements in RESP bulk string"@
}

pub open spec fn msg_bulk_len_int() -> Seq<char> {
    "Invalid Integer Error: Expected an integer but received non-integer string in place denoting number of elements in RESP bulk string"@
}

pub open spec fn msg_bulk_utf8() -> Seq<char> {
    "Malformed Request Error: Invalid UTF8 string encoded by bytes representing RESP bulk string"@
}

/// What reading from a position gives: a result and the position reached,
/// or `Overrun` when a bulk string claims more bytes than the buffer holds
/// (the read would index past the end).
pub enum ReadSpec<T> {
    Done(Result<T, RedisErrorView>, int),
    Overrun,
}

/// Reading a bulk string whose length digits start at `start` (just after `$`).
pub open spec fn bulk_string_spec(b: Seq<u8>, start: int) -> ReadSpec<Seq<char>> {
    match line_end(b, start) {
        None => ReadSpec::Done(
            Err(RedisErrorView::OutOfBytes(lossy_text(b), Some(msg_no_crlf()))),
            line_end_missing_pos(b, start),
        ),
        Some(p) => {
            let digits = b.subrange(start, p + 1);
            if !valid_utf8(digits) {
                ReadSpec::Done(
                    Err(
                        RedisErrorView::MalformedRequest(
                            p as i32,
                            lossy_text(digits),
                            Some(msg_bulk_len_utf8()),
                        ),
                    ),
                    p,
                )
            } else {
                match parse_unsigned(digits, usize::MAX as nat) {
                    None => ReadSpec::Done(
                        Err(
                            RedisErrorView::InvalidInteger(
                                lossy_text(b),
                                decode_utf8(digits),
                                Some(msg_bulk_len_int()),
                            ),
                        ),
                        p,
                    ),
                    Some(n) => {
                        let body_start = p + 3;
                        if body_start + n > b.len() {
                            ReadSpec::Overrun
                        } else {
                            let body = b.subrange(body_start, body_start + n);
                            if !valid_utf8(body) {
                                ReadSpec::Done(
                                    Err(
                                        RedisErrorView::MalformedRequest(
                                            body_start as i32,
                                            lossy_text(body),
                                            Some(msg_bulk_utf8()),
                                        ),
                                    ),
                                    body_start,
                                )
                            } else {
                                ReadSpec::Done(Ok(decode_utf8(body)), body_start + n + 2)
                            }
                        }
                    },
                }
            }
        },
    }
}

/// Reading array elements `i..n` from `pos`, with `got` the elements read so
/// far and `initial` where the array's count began.
pub open spec fn array_elements_spec(
    b: Seq<u8>,
    initial: int,
    pos: int,
    i: nat,
    n: nat,
    got: Seq<Seq<char>>,
) -> ReadSpec<Seq<Seq<char>>>
    decreases n - i,
{
    if i >= n {
        ReadSpec::Done(Ok(got), pos)
    } else if pos >= b.len() {
        ReadSpec::Done(
            Err(RedisErrorView::OutOfBytes(lossy_text(b), Some(msg_array_short(n)))),
            pos,
        )
    } else if b[pos] != 36u8 {
        ReadSpec::Done(
            Err(
                RedisErrorView::UnknownRESPDataType(
                    pos as i32,
                    lossy_text(b.subrange(initial, pos + 1)),
                    Some(msg_unknown_type()),
                ),
            ),
            pos,
        )
    } else {
        match bulk_string_spec(b, pos + 1) {
            ReadSpec::Overrun => ReadSpec::Overrun,
            ReadSpec::Done(Err(e), q) => ReadSpec::Done(Err(e), q),
            ReadSpec::Done(Ok(s), q) => array_elements_spec(
                b,
                initial,
                q,
                i + 1,
                n,
                got.push(if i == 0 { ascii_upper(s) } else { s }),
            ),
        }
    }
}

/// Reading a RESP array whose count digits start at `start` (just after `*`);
/// the first element, the command name, is upper-cased.
pub open spec fn resp_array_spec(b: Seq<u8>, start: int) -> ReadSpec<Seq<Seq<char>>> {
    match line_end(b, start) {
        None => ReadSpec::Done(
            Err(RedisErrorView::OutOfBytes(lossy_text(b), Some(msg_no_crlf()))),
            line_end_missing_pos(b, start),
        ),
        Some(p) => {
            let digits = b.subrange(start, p + 1);
            if !valid_utf8(digits) {
                ReadSpec::Done(
                    Err(
                        RedisErrorView::MalformedRequest(
                            p as i32,
                            lossy_text(b),
                            Some(msg_array_len_utf8()),
                        ),
                    ),
                    p,
                )
            } else {
                match parse_unsigned(digits, usize::MAX as nat) {
                    None => ReadSpec::Done(
                        Err(
                            RedisErrorView::InvalidInteger(
                                lossy_text(b),
                                decode_utf8(digits),
                                Some(msg_array_len_int()),
                            ),
                        ),
                        p,
                    ),
                    Some(n) => array_elements_spec(b, start, p + 3, 0, n, Seq::empty()),
                }
            }
        },
    }
}

/// The machine limit that keeps every position the parser computes within
/// `usize`.
pub open spec fn positions_fit(len: nat, pos: nat) -> bool {
    len + 16 <= usize::MAX && pos + 8 <= usize::MAX
}

/// Scans from `start` for the next `\r\n`.
fn scan_line_end(b: &[u8], start: usize) -> (r: Result<usize, usize>)
    requires
        positions_fit(b@.len(), start as nat),
    ensures
        match line_end(b@, start as int) {
            Some(p) => r == Ok::<usize, usize>(p as usize),
            None => r == Err::<usize, usize>(line_end_missing_pos(b@, start as int) as usize),
        },
{
    let mut p = start;
    loop
        invariant
            positions_fit(b@.len(), start as nat),
            start <= p,
            p == start || p + 1 < b@.len(),
            line_end(b@, start as int) == line_end(b@, p as int),
        decreases b@.len() - p,
    {
        if p + 2 < b.len() {
            if b[p + 1] == 13u8 && b[p + 2] == 10u8 {
                return Ok(p);
            }
            p = p + 1;
        } else {
            return Err(p);
        }
    }
}

/// Reads a bulk string whose length digits start at `start`; `None` when the
/// bulk string runs past the end of the buffer.
fn read_bulk_string(b: &[u8], start: usize) -> (r: Option<(Result<String, RedisError>, usize)>)
    requires
        positions_fit(b@.len(), start as nat),
    ensures
        match bulk_string_spec(b@, start as int) {
            ReadSpec::Overrun => r is None,
            ReadSpec::Done(res, q) => r matches Some((x, p)) && text_result(x) == res && p == q,
        },
{
    let p = match scan_line_end(b, start) {
        Ok(p) => p,
        Err(q) => {
            let s = utf8_lossy_string(b);
            let m = String::from_str(
                "Out of Bytes Error: Reached end of command read from buffer before hitting a terminal CRLF, will try to read more bytes",
            );
            return Some((Err(RedisError::OutOfBytes(s, Some(m))), q));
        },
    };
    proof {
        lemma_line_end_bounds(b@, start as int);
    }
    let digits = vstd::slice::slice_subrange(b, start, p + 1);
    let digits_text = match utf8_to_string(digits) {
        Some(t) => t,
        None => {
            let s = utf8_lossy_string(digits);
            let m = String::from_str(
                "Malformed Request Error: Invalid UTF8 string encoded by bytes representing number of elements in RESP bulk string",
            );
            return Some((Err(RedisError::MalformedRequest(p as i32, s, Some(m))), p));
        },
    };
    let n = match parse_usize(digits) {
        Some(n) => n,
        None => {
            let s = utf8_lossy_string(b);
            let m = String::from_str(
                "Invalid Integer Error: Expected an integer but received non-integer string in place denoting number of elements in RESP bulk string",
            );
            return Some((Err(RedisError::InvalidInteger(s, digits_text, Some(m))), p));
        },
    };
    let body_start = p + 3;
    if n > b.len() - body_start {
        return None;
    }
    let body = vstd::slice::slice_subrange(b, body_start, body_start + n);
    match utf8_to_string(body) {
        Some(t) => Some((Ok(t), body_start + n + 2)),
        None => {
            let s = utf8_lossy_string(body);
            let m = String::from_str(
                "Malformed Request Error: Invalid UTF8 string encoded by bytes representing RESP bulk string",
            );
            Some((Err(RedisError::MalformedRequest(body_start as i32, s, Some(m))), body_start))
        },
    }
}

proof fn lemma_bulk_string_end(b: Seq<u8>, start: int)
    ensures
        bulk_string_spec(b, start) matches ReadSpec::Done(Ok(_), q) ==> start <= q <= b.len() + 2,
{
    lemma_line_end_bounds(b, start);
}

/// Reads a RESP array whose count digits start at `start`; `None` when one of
/// its bulk strings runs past the end of the buffer.
fn read_resp_array(b: &[u8], start: usize) -> (r: Option<(Result<Vec<String>, RedisError>, usize)>)
    requires
        positions_fit(b@.len(), start as nat),
    ensures
        match resp_array_spec(b@, start as int) {
            ReadSpec::Overrun => r is None,
            ReadSpec::Done(res, q) => r matches Some((x, p)) && texts_result(x) == res && p == q,
        },
{
    let p = match scan_line_end(b, start) {
        Ok(p) => p,
        Err(q) => {
            let s = utf8_lossy_string(b);
            let m = String::from_str(
                "Out of Bytes Error: Reached end of command read from buffer before hitting a terminal CRLF, will try to read more bytes",
            );
            return Some((Err(RedisError::OutOfBytes(s, Some(m))), q));
        },
    };
    proof {
        lemma_line_end_bounds(b@, start as int);
    }
    let digits = vstd::slice::slice_subrange(b, start, p + 1);
    let digits_text = match utf8_to_string(digits) {
        Some(t) => t,
        None => {
            let s = utf8_lossy_string(b);
            let m = String::from_str(
                "Malformed Request Error: Invalid UTF8 string encoded by bytes representing number of elements in RESP array",
            );
            return Some((Err(RedisError::MalformedRequest(p as i32, s, Some(m))), p));
        },
    };
    let n = match parse_usize(digits) {
        Some(n) => n,
        None => {
            let s = utf8_lossy_string(b);
            let m = String::from_str(
                "Invalid Integer Error: Expected an integer but received non-integer string in place denoting number of elements in RESP array",
            );
            return Some((Err(RedisError::InvalidInteger(s, digits_text, Some(m))), p));
        },
    };
    let mut args: Vec<String> = Vec::new();
    let mut pos = p + 3;
    let mut i: usize = 0;
    assert(texts(args@) =~= Seq::<Seq<char>>::empty());
    while i < n
        invariant
            positions_fit(b@.len(), start as nat),
            start <= p,
            start <= pos <= b@.len() + 2,
            i <= n,
            resp_array_spec(b@, start as int) == array_elements_spec(
                b@,
                start as int,
                pos as int,
                i as nat,
                n as nat,
                texts(args@),
            ),
        decreases n - i,
    {
        if pos >= b.len() {
            let s = utf8_lossy_string(b);
            let mut m = String::from_str(
                "Out of Bytes Error: Reached end of bytes read from buffer into accumulator before processing expected number of RESP array elements (",
            );
            append_decimal(&mut m, n as u64);
            m.append(")");
            return Some((Err(RedisError::OutOfBytes(s, Some(m))), pos));
        }
        if b[pos] != 36u8 {
            let s = utf8_lossy_string(vstd::slice::slice_subrange(b, start, pos + 1));
            let m = String::from_str(
                "Unknown RESP Data Type Error: RESP array contains an array element of invalid data type",
            );
            return Some((Err(RedisError::UnknownRESPDataType(pos as i32, s, Some(m))), pos));
        }
        proof {
            lemma_bulk_string_end(b@, pos + 1);
        }
        match read_bulk_string(b, pos + 1) {
            None => {
                return None;
            },
            Some((Err(e), q)) => {
                return Some((Err(e), q));
            },
            Some((Ok(s), q)) => {
                let item = if i == 0 {
                    to_ascii_uppercase(s.as_str())
                } else {
                    s
                };
                let ghost old_args = args@;
                args.push(item);
                assert(texts(args@) =~= texts(old_args).push(item@));
                pos = q;
            },
        }
        i = i + 1;
    }
    Some((Ok(args), pos))
}

/// Parses a RESP array from `accumulator`, the count's digits starting at
/// `*pos` (just after the `*`). The first element is upper-cased. `*pos`
/// ends at the position the parse reached. A bulk string that claims more
/// bytes than the buffer holds is out of this function's domain (it would
/// index past the end); `resp_array_overruns` tells such input apart.
pub fn parse_resp_array(accumulator: &mut Vec<u8>, pos: &mut usize) -> (r: Result<
    Vec<String>,
    RedisError,
>)
    requires
        positions_fit(old(accumulator)@.len(), *old(pos) as nat),
        !(resp_array_spec(old(accumulator)@, *old(pos) as int) is Overrun),
    ensures
        final(accumulator)@ == old(accumulator)@,
        match resp_array_spec(old(accumulator)@, *old(pos) as int) {
            ReadSpec::Done(res, q) => texts_result(r) == res && *final(pos) as int == q,
            ReadSpec::Overrun => false,
        },
{
    match read_resp_array(accumulator.as_slice(), *pos) {
        Some((r, q)) => {
            *pos = q;
            r
        },
        None => {
            assert(false);
            Err(RedisError::WrongType(String::new()))
        },
    }
}

/// Whether the RESP array at `pos` holds a bulk string that claims more bytes
/// than `accumulator` holds.
pub fn resp_array_overruns(accumulator: &Vec<u8>, pos: usize) -> (r: bool)
    requires
        positions_fit(accumulator@.len(), pos as nat),
    ensures
        r == (resp_array_spec(accumulator@, pos as int) is Overrun),
{
    read_resp_array(accumulator.as_slice(), pos).is_none()
}

/// Whether the bulk string at `pos` claims more bytes than `accumulator`
/// holds.
pub fn bulk_string_overruns(accumulator: &Vec<u8>, pos: usize) -> (r: bool)
    requires
        positions_fit(accumulator@.len(), pos as nat),
    ensures
        r == (bulk_string_spec(accumulator@, pos as int) is Overrun),
{
    read_bulk_string(accumulator.as_slice(), pos).is_none()
}

/// Parses a bulk string from `accumulator`, its length digits starting at
/// `*pos` (just after the `$`); `*pos` ends at the position the parse
/// reached. A length that runs past the end of the buffer is out of this
/// function's domain (it would index past the end); `bulk_string_overruns`
/// tells such input apart.
pub fn parse_bulk_string(accumulator: &mut Vec<u8>, pos: &mut usize) -> (r: Result<
    String,
    RedisError,
>)
    requires
        positions_fit(old(accumulator)@.len(), *old(pos) as nat),
        !(bulk_string_spec(old(accumulator)@, *old(pos) as int) is Overrun),
    ensures
        final(accumulator)@ == old(accumulator)@,
        match bulk_string_spec(old(accumulator)@, *old(pos) as int) {
            ReadSpec::Done(res, q) => text_result(r) == res && *final(pos) as int == q,
            ReadSpec::Overrun => false,
        },
{
    match read_bulk_string(accumulator.as_slice(), *pos) {
        Some((r, q)) => {
            *pos = q;
            r
        },
        None => {
            assert(false);
            Err(RedisError::WrongType(String::new()))
        },
    }
}

} // verus!
