//! Tokenizing one command line: space-separated tokens read through a cursor,
//! converted to strings, bytes or integers on demand.

use vstd::prelude::*;
use vstd::slice::slice_subrange;
use vstd::slice::slice_to_vec;
use vstd::utf8::{decode_utf8, valid_utf8};

verus! {

/// Error encountered while tokenizing a command line.
#[derive(Debug, PartialEq, Eq, Structural)]
pub enum ParseError {
    /// A token was required but the line was fully consumed.
    EndOfLine,
    /// The line should have been consumed but data remained.
    LineTooLong,
    /// The token is not valid UTF-8.
    String,
    /// The token is not a `u32` in decimal.
    U32,
    /// The token is not a `u64` in decimal.
    U64,
}

/// The ASCII decimal digits.
pub open spec fn is_digit(b: u8) -> bool {
    48u8 <= b <= 57u8
}

/// The index just past the run of digits that starts at `i`.
pub open spec fn digits_end(t: Seq<u8>, i: int) -> int
    decreases t.len() - i,
{
    if 0 <= i < t.len() && is_digit(t[i]) {
        digits_end(t, i + 1)
    } else {
        i
    }
}

/// The number that the digits `t[from..to]` write in decimal.
pub open spec fn digits_value(t: Seq<u8>, from: int, to: int) -> nat
    decreases to - from,
{
    if to <= from {
        0
    } else {
        digits_value(t, from, to - 1) * 10 + (t[to - 1] as int - 48) as nat
    }
}

/// `t` is a non-empty run of ASCII decimal digits.
pub open spec fn all_digits(t: Seq<u8>) -> bool {
    t.len() > 0 && forall|i: int| 0 <= i < t.len() ==> is_digit(#[trigger] t[i])
}

/// The number that the digits `t` write in decimal.
pub open spec fn decimal_value(t: Seq<u8>) -> nat {
    digits_value(t, 0, t.len() as int)
}

/// The integer token `t` if it is a decimal number no greater than `max`.
pub open spec fn integer_token(t: Seq<u8>, max: nat) -> Option<nat> {
    if all_digits(t) && decimal_value(t) <= max {
        Some(decimal_value(t))
    } else {
        None
    }
}

proof fn lemma_digits_end_all(t: Seq<u8>, i: int)
    requires
        0 <= i <= t.len(),
        forall|j: int| 0 <= j < t.len() ==> is_digit(#[trigger] t[j]),
    ensures
        digits_end(t, i) == t.len(),
    decreases t.len() - i,
{
    if i < t.len() {
        lemma_digits_end_all(t, i + 1);
    }
}

proof fn lemma_parse_all_digits(t: Seq<u8>, max: nat)
    requires
        all_digits(t),
    ensures
        parse_decimal(t, max) == integer_token(t, max),
{
    lemma_digits_end_all(t, 0);
    assert(is_digit(t[0]));
}

/// Whether `t` is a non-empty run of ASCII decimal digits.
fn is_decimal(t: &[u8]) -> (r: bool)
    ensures
        r == all_digits(t@),
{
    if t.len() == 0 {
        return false;
    }
    let mut i: usize = 0;
    while i < t.len()
        invariant
            i <= t@.len(),
            forall|j: int| 0 <= j < i ==> is_digit(#[trigger] t@[j]),
        decreases t@.len() - i,
    {
        if t[i] < 48u8 || t[i] > 57u8 {
            assert(!is_digit(t@[i as int]));
            return false;
        }
        i += 1;
    }
    true
}

/// What `atoi` reads from `t` for an unsigned type whose largest value is
/// `max`: an optional sign, then the leading run of digits; whatever follows is
/// ignored. Without a sign at least one digit is needed. A value above `max`,
/// or a minus sign before anything but zeros, gives `None`.
pub open spec fn parse_decimal(t: Seq<u8>, max: nat) -> Option<nat> {
    if t.len() > 0 && t[0] == 43u8 {
        let v = digits_value(t, 1, digits_end(t, 1));
        if v <= max {
            Some(v)
        } else {
            None
        }
    } else if t.len() > 0 && t[0] == 45u8 {
        if digits_value(t, 1, digits_end(t, 1)) == 0 {
            Some(0)
        } else {
            None
        }
    } else {
        let e = digits_end(t, 0);
        let v = digits_value(t, 0, e);
        if e == 0 || v > max {
            None
        } else {
            Some(v)
        }
    }
}

/// Relies on `atoi::atoi::<u32>`: an optional sign and the leading digits,
/// checked for overflow.
#[verifier::external_body]
fn atoi_u32(text: &[u8]) -> (r: Option<u32>)
    ensures
        match r {
            Some(n) => parse_decimal(text@, u32::MAX as nat) == Some(n as nat),
            None => parse_decimal(text@, u32::MAX as nat) is None,
        },
{
    atoi::atoi::<u32>(text)
}

/// Relies on `atoi::atoi::<u64>`: an optional sign and the leading digits,
/// checked for overflow.
#[verifier::external_body]
fn atoi_u64(text: &[u8]) -> (r: Option<u64>)
    ensures
        match r {
            Some(n) => parse_decimal(text@, u64::MAX as nat) == Some(n as nat),
            None => parse_decimal(text@, u64::MAX as nat) is None,
        },
{
    atoi::atoi::<u64>(text)
}

/// Relies on `String::from_utf8`: the decoded text exactly when the bytes are
/// valid UTF-8.
#[verifier::external_body]
pub(crate) fn utf8_string(bytes: Vec<u8>) -> (r: Option<String>)
    ensures
        match r {
            Some(s) => valid_utf8(bytes@) && s@ == decode_utf8(bytes@),
            None => !valid_utf8(bytes@),
        },
{
    String::from_utf8(bytes).ok()
}

/// The index of the first space in `s[i..end]`.
pub open spec fn find_space(s: Seq<u8>, i: int, end: int) -> Option<int>
    decreases end - i,
{
    if i < 0 || i >= end || i >= s.len() {
        None
    } else if s[i] == 32u8 {
        Some(i)
    } else {
        find_space(s, i + 1, end)
    }
}

/// The token that starts at `pos` of line `s`, and the position after it. The
/// scan for its closing space starts one byte after `pos` and stops before the
/// last byte; a token without a closing space runs to the end of the line and
/// leaves the position one past the end.
pub open spec fn next_token(s: Seq<u8>, pos: int) -> Option<(Seq<u8>, int)> {
    if pos < 0 || pos >= s.len() {
        None
    } else {
        match find_space(s, pos + 1, s.len() - 1) {
            Some(i) => Some((s.subrange(pos, i), i + 1)),
            None => Some((s.subrange(pos, s.len() as int), s.len() + 1int)),
        }
    }
}

proof fn lemma_find_space_bounds(s: Seq<u8>, i: int, end: int)
    ensures
        match find_space(s, i, end) {
            Some(j) => i <= j < end && j < s.len() && s[j] == 32u8,
            None => true,
        },
    decreases end - i,
{
    if 0 <= i && i < end && i < s.len() && s[i] != 32u8 {
        lemma_find_space_bounds(s, i + 1, end);
    }
}

/// The index of the first space in `s[start..end]`.
fn space_index(s: &[u8], start: usize, end: usize) -> (r: Option<usize>)
    requires
        end < s@.len(),
    ensures
        match r {
            Some(i) => find_space(s@, start as int, end as int) == Some(i as int),
            None => find_space(s@, start as int, end as int) is None,
        },
{
    let mut i: usize = start;
    while i < end
        invariant
            start <= i,
            end < s@.len(),
            find_space(s@, start as int, end as int) == find_space(s@, i as int, end as int),
        decreases end - i,
    {
        if s[i] == 32u8 {
            return Some(i);
        }
        i += 1;
    }
    None
}

pub(crate) proof fn lemma_next_token_advances(s: Seq<u8>, pos: int)
    ensures
        match next_token(s, pos) {
            Some((t, p)) => pos < p <= s.len() + 1,
            None => pos < 0 || pos >= s.len(),
        },
{
    lemma_find_space_bounds(s, pos + 1, s.len() - 1);
}

/// The next token as text, and the position after it.
pub open spec fn string_token(s: Seq<u8>, pos: int) -> Result<(Seq<char>, int), ParseError> {
    match next_token(s, pos) {
        None => Err(ParseError::EndOfLine),
        Some((t, p)) => if valid_utf8(t) {
            Ok((decode_utf8(t), p))
        } else {
            Err(ParseError::String)
        },
    }
}

/// The next token as a `u32`, and the position after it.
pub open spec fn u32_token(s: Seq<u8>, pos: int) -> Result<(u32, int), ParseError> {
    match next_token(s, pos) {
        None => Err(ParseError::EndOfLine),
        Some((t, p)) => match integer_token(t, u32::MAX as nat) {
            Some(n) => Ok((n as u32, p)),
            None => Err(ParseError::U32),
        },
    }
}

#[via_fn]
proof fn keys_from_decreases(s: Seq<u8>, pos: int) {
    lemma_next_token_advances(s, pos);
}

/// The keys read from `pos` for as long as the line is not consumed.
pub open spec fn keys_from(s: Seq<u8>, pos: int) -> Result<Seq<Seq<char>>, ParseError>
    decreases s.len() + 1 - pos,
    via keys_from_decreases
{
    if pos > s.len() {
        Ok(Seq::empty())
    } else {
        match string_token(s, pos) {
            Err(e) => Err(e),
            Ok((k, p)) => match keys_from(s, p) {
                Ok(ks) => Ok(seq![k] + ks),
                Err(e) => Err(e),
            },
        }
    }
}

/// One required key, then the keys that follow it.
pub open spec fn get_keys(s: Seq<u8>, pos: int) -> Result<Seq<Seq<char>>, ParseError> {
    match string_token(s, pos) {
        Err(e) => Err(e),
        Ok((k, p)) => match keys_from(s, p) {
            Ok(ks) => Ok(seq![k] + ks),
            Err(e) => Err(e),
        },
    }
}

/// The fields of a storage command line from `pos`: the key, the flags, the
/// expiration and the data length (read, not kept); and the position after them.
pub open spec fn set_fields(s: Seq<u8>, pos: int) -> Result<(Seq<char>, u32, u32, int), ParseError> {
    match string_token(s, pos) {
        Err(e) => Err(e),
        Ok((key, p1)) => match u32_token(s, p1) {
            Err(e) => Err(e),
            Ok((flags, p2)) => match u32_token(s, p2) {
                Err(e) => Err(e),
                Ok((expiration, p3)) => match u32_token(s, p3) {
                    Err(e) => Err(e),
                    Ok((_, p4)) => Ok((key, flags, expiration, p4)),
                },
            },
        },
    }
}

/// A cursor over one command line.
#[derive(Debug)]
pub struct Parse {
    line: Vec<u8>,
    pos: usize,
}

impl View for Parse {
    /// The line and the cursor's position in it.
    type V = (Seq<u8>, int);

    closed spec fn view(&self) -> (Seq<u8>, int) {
        (self.line@, self.pos as int)
    }
}

impl Parse {
    #[verifier::type_invariant]
    spec fn inv(&self) -> bool {
        &&& self.line@.len() < usize::MAX
        &&& self.pos <= self.line@.len() + 1
    }

    /// A cursor at the start of `command_line`.
    pub fn new(command_line: Vec<u8>) -> (p: Parse)
        requires
            command_line@.len() < usize::MAX,
        ensures
            p@ == (command_line@, 0int),
    {
        Parse { line: command_line, pos: 0 }
    }

    /// Returns the next space-delimited token and moves past it.
    fn next(&mut self) -> (r: Result<Vec<u8>, ParseError>)
        ensures
            match next_token(old(self)@.0, old(self)@.1) {
                None => r == Err::<Vec<u8>, ParseError>(ParseError::EndOfLine) && final(self)@ == old(self)@,
                Some((t, p)) => {
                    &&& r matches Ok(v)
                    &&& v@ == t
                    &&& final(self)@ == (old(self)@.0, p)
                },
            },
    {
        proof {
            use_type_invariant(&*self);
        }
        let len = self.line.len();
        let current = self.pos;
        if current >= len {
            return Err(ParseError::EndOfLine);
        }
        proof {
            lemma_find_space_bounds(self.line@, current + 1, len - 1);
        }
        if let Some(i) = space_index(self.line.as_slice(), current + 1, len - 1) {
            let token = slice_to_vec(slice_subrange(self.line.as_slice(), current, i));
            self.pos = i + 1;
            return Ok(token);
        }
        let token = slice_to_vec(slice_subrange(self.line.as_slice(), current, len));
        self.pos = len + 1;
        Ok(token)
    }

    /// Returns the next token as a string.
    pub fn next_string(&mut self) -> (r: Result<String, ParseError>)
        ensures
            match next_token(old(self)@.0, old(self)@.1) {
                None => r == Err::<String, ParseError>(ParseError::EndOfLine) && final(self)@ == old(self)@,
                Some((t, p)) => {
                    &&& final(self)@ == (old(self)@.0, p)
                    &&& valid_utf8(t) ==> (r matches Ok(s) && s@ == decode_utf8(t))
                    &&& !valid_utf8(t) ==> r == Err::<String, ParseError>(ParseError::String)
                },
            },
    {
        let token = self.next()?;
        match utf8_string(token) {
            Some(s) => Ok(s),
            None => Err(ParseError::String),
        }
    }

    /// Returns the next token as raw bytes.
    pub fn next_bytes(&mut self) -> (r: Result<Vec<u8>, ParseError>)
        ensures
            match next_token(old(self)@.0, old(self)@.1) {
                None => r == Err::<Vec<u8>, ParseError>(ParseError::EndOfLine) && final(self)@ == old(self)@,
                Some((t, p)) => {
                    &&& r matches Ok(v)
                    &&& v@ == t
                    &&& final(self)@ == (old(self)@.0, p)
                },
            },
    {
        self.next()
    }

    /// Returns the next token as a `u32`: it must be a run of decimal digits
    /// whose value fits.
    pub fn next_u32(&mut self) -> (r: Result<u32, ParseError>)
        ensures
            match next_token(old(self)@.0, old(self)@.1) {
                None => r == Err::<u32, ParseError>(ParseError::EndOfLine) && final(self)@ == old(self)@,
                Some((t, p)) => {
                    &&& final(self)@ == (old(self)@.0, p)
                    &&& match integer_token(t, u32::MAX as nat) {
                        Some(n) => r matches Ok(v) && v as nat == n,
                        None => r == Err::<u32, ParseError>(ParseError::U32),
                    }
                },
            },
    {
        let token = self.next()?;
        if !is_decimal(token.as_slice()) {
            return Err(ParseError::U32);
        }
        proof {
            lemma_parse_all_digits(token@, u32::MAX as nat);
        }
        match atoi_u32(token.as_slice()) {
            Some(n) => Ok(n),
            None => Err(ParseError::U32),
        }
    }

    /// Returns the next token as a `u64`: it must be a run of decimal digits
    /// whose value fits.
    pub fn next_u64(&mut self) -> (r: Result<u64, ParseError>)
        ensures
            match next_token(old(self)@.0, old(self)@.1) {
                None => r == Err::<u64, ParseError>(ParseError::EndOfLine) && final(self)@ == old(self)@,
                Some((t, p)) => {
                    &&& final(self)@ == (old(self)@.0, p)
                    &&& match integer_token(t, u64::MAX as nat) {
                        Some(n) => r matches Ok(v) && v as nat == n,
                        None => r == Err::<u64, ParseError>(ParseError::U64),
                    }
                },
            },
    {
        let token = self.next()?;
        if !is_decimal(token.as_slice()) {
            return Err(ParseError::U64);
        }
        proof {
            lemma_parse_all_digits(token@, u64::MAX as nat);
        }
        match atoi_u64(token.as_slice()) {
            Some(n) => Ok(n),
            None => Err(ParseError::U64),
        }
    }

    /// Whether the cursor has moved past the end of the line.
    pub fn complete(&self) -> (r: bool)
        ensures
            r == (self@.1 > self@.0.len()),
    {
        self.pos > self.line.len()
    }

    /// Succeeds only if the whole line has been consumed.
    pub fn finish(&self) -> (r: Result<(), ParseError>)
        ensures
            r is Ok <==> self@.1 > self@.0.len(),
            r is Err ==> r == Err::<(), ParseError>(ParseError::LineTooLong),
    {
        if self.pos > self.line.len() {
            Ok(())
        } else {
            Err(ParseError::LineTooLong)
        }
    }
}

} // verus!
