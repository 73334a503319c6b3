//! RESP frames and their byte encoding.
use vstd::prelude::*;
use vstd::arithmetic::div_mod::{lemma_add_mod_noop, lemma_mul_mod_noop_left};
use vstd::slice::slice_to_vec;
use vstd::wrapping::i64_specs::signed_crop;

use vstd::utf8::{decode_utf8, valid_utf8};

use crate::errors::FrameErrors;
use crate::text::utf8_text;

verus! {

/// Carriage return.
pub const CR: u8 = 13;

/// Line feed.
pub const LF: u8 = 10;

/// `+`: type tag of a simple string, and the optional plus sign of an integer.
pub const PLUS: u8 = 43;

/// `-`: the minus sign of an integer.
pub const MINUS: u8 = 45;

/// `:`: type tag of an integer.
pub const COLON: u8 = 58;

/// `$`: type tag of a bulk string.
pub const DOLLAR: u8 = 36;

/// `*`: type tag of an array.
pub const STAR: u8 = 42;

/// The digit `0`.
pub const ZERO: u8 = 48;

/// The digit `1`.
pub const ONE: u8 = 49;

/// Whether `b` is one of the two line-terminator bytes.
pub open spec fn is_special(b: u8) -> bool {
    b == CR || b == LF
}

/// `p` is the index of the first occurrence of `b` in `s`.
pub open spec fn is_first(s: Seq<u8>, b: u8, p: int) -> bool {
    &&& 0 <= p < s.len()
    &&& s[p] == b
    &&& forall|j: int| 0 <= j < p ==> s[j] != b
}

/// Index of the first occurrence of `b` in `s`, if any.
pub open spec fn position_in(s: Seq<u8>, b: u8) -> Option<int> {
    if exists|p: int| is_first(s, b, p) {
        Some(choose|p: int| is_first(s, b, p))
    } else {
        None
    }
}

pub proof fn lemma_position_is(s: Seq<u8>, b: u8, p: int)
    requires
        is_first(s, b, p),
    ensures
        position_in(s, b) == Some(p),
{
    let q = choose|q: int| is_first(s, b, q);
    assert(is_first(s, b, q));
    if q < p {
        assert(s[q] != b);
    } else if p < q {
        assert(s[p] != b);
    }
}

/// Index of the first occurrence of `char_we_look_for` in `slice`.
pub fn get_position(slice: &[u8], char_we_look_for: u8) -> (r: Option<usize>)
    ensures
        match r {
            Some(p) => position_in(slice@, char_we_look_for) == Some(p as int) && is_first(
                slice@,
                char_we_look_for,
                p as int,
            ),
            None => position_in(slice@, char_we_look_for) is None && forall|j: int|
                0 <= j < slice@.len() ==> slice@[j] != char_we_look_for,
        },
{
    let mut i: usize = 0;
    while i < slice.len()
        invariant
            i <= slice@.len(),
            forall|j: int| 0 <= j < i ==> slice@[j] != char_we_look_for,
        decreases slice@.len() - i,
    {
        if slice[i] == char_we_look_for {
            proof {
                lemma_position_is(slice@, char_we_look_for, i as int);
            }
            return Some(i);
        }
        i = i + 1;
    }
    None
}

/// Whether the byte is CR or LF.
pub fn is_special_byte(b: &u8) -> (r: bool)
    ensures
        r == is_special(*b),
{
    *b == CR || *b == LF
}

/// Number of bytes before the first CR.
pub fn get_input_length(buffer: &[u8]) -> (r: Result<usize, FrameErrors>)
    ensures
        match r {
            Ok(n) => position_in(buffer@, CR) == Some(n as int) && is_first(buffer@, CR, n as int),
            Err(e) => position_in(buffer@, CR) is None && e == FrameErrors::MissingCRLF,
        },
{
    match get_position(buffer, CR) {
        Some(n) => Ok(n),
        None => Err(FrameErrors::MissingCRLF),
    }
}


/// The value that the digit accumulation adds for byte `b`: `b - '0'`,
/// wrapping around as a byte does.
pub open spec fn digit_value(b: u8) -> int {
    if b >= 48 {
        b - 48
    } else {
        b + 208
    }
}

/// Decimal accumulation `value * 10 + digit` over `d`, without bound.
pub open spec fn digits_value(d: Seq<u8>) -> int
    decreases d.len(),
{
    if d.len() == 0 {
        0
    } else {
        digits_value(d.drop_last()) * 10 + digit_value(d.last())
    }
}

/// Length of the optional sign that may open an integer.
pub open spec fn sign_len(s: Seq<u8>) -> int {
    if s.len() > 0 && (s[0] == PLUS || s[0] == MINUS) {
        1
    } else {
        0
    }
}

/// The integer written in `s` before index `end`, wrapped into `i64`.
pub open spec fn integer_value(s: Seq<u8>, end: int) -> i64 {
    let magnitude = digits_value(s.subrange(sign_len(s), end));
    signed_crop(
        if s.len() > 0 && s[0] == MINUS {
            -magnitude
        } else {
            magnitude
        },
    )
}

/// Decoding of an integer field: the bytes up to the first CR.
pub open spec fn integer_spec(s: Seq<u8>) -> Result<i64, FrameErrors> {
    match position_in(s, CR) {
        Some(end) => Ok(integer_value(s, end)),
        None => Err(FrameErrors::MissingCRLF),
    }
}

proof fn lemma_crop_mod(x: int)
    ensures
        (signed_crop(x) as int) % 0x1_0000_0000_0000_0000 == x % 0x1_0000_0000_0000_0000,
{
}

proof fn lemma_crop_step(a: int, k: int, d: int)
    ensures
        signed_crop(signed_crop(a) * k + d) == signed_crop(a * k + d),
{
    let m: int = 0x1_0000_0000_0000_0000;
    let c = signed_crop(a) as int;
    lemma_crop_mod(a);
    lemma_mul_mod_noop_left(c, k, m);
    lemma_mul_mod_noop_left(a, k, m);
    lemma_add_mod_noop(c * k, d, m);
    lemma_add_mod_noop(a * k, d, m);
}

proof fn lemma_wrapping_add(x: i64, y: i64)
    ensures
        vstd::wrapping::i64_specs::wrapping_add(x, y) == signed_crop(x + y),
{
}

proof fn lemma_accumulate(s: Seq<u8>, lo: int, i: int, number: i64)
    requires
        0 <= lo <= i < s.len(),
        number == signed_crop(digits_value(s.subrange(lo, i))),
    ensures
        vstd::wrapping::i64_specs::wrapping_add(
            signed_crop(number * 10),
            vstd::wrapping::u8_specs::wrapping_sub(s[i], ZERO) as i64,
        ) == signed_crop(digits_value(s.subrange(lo, i + 1))),
{
    let d = vstd::wrapping::u8_specs::wrapping_sub(s[i], ZERO);
    let prev = digits_value(s.subrange(lo, i));
    assert(s.subrange(lo, i + 1).drop_last() =~= s.subrange(lo, i));
    assert(digit_value(s[i]) == d as int);
    lemma_crop_step(prev, 10, d as int);
    lemma_crop_step(prev, 10, 0);
    lemma_wrapping_add(signed_crop(number * 10), d as i64);
}

/// Decodes a signed decimal integer that ends at the first CR; digits
/// accumulate with wrapping arithmetic.
pub fn decode_integer(buffer: &[u8]) -> (r: Result<i64, FrameErrors>)
    requires
        buffer@.len() > 0,
    ensures
        r == integer_spec(buffer@),
{
    let offset: usize;
    let sign_multiplier: i64;
    if buffer[0] == PLUS {
        offset = 1;
        sign_multiplier = 1;
    } else if buffer[0] == MINUS {
        offset = 1;
        sign_multiplier = -1;
    } else {
        offset = 0;
        sign_multiplier = 1;
    }
    let length = match get_input_length(buffer) {
        Ok(n) => n,
        Err(e) => return Err(e),
    };
    let mut number: i64 = 0;
    let mut i: usize = offset;
    assert(buffer@.subrange(offset as int, offset as int) =~= Seq::<u8>::empty());
    while i < length
        invariant
            offset as int == sign_len(buffer@),
            offset <= i <= length,
            length < buffer@.len(),
            number == signed_crop(digits_value(buffer@.subrange(offset as int, i as int))),
        decreases length - i,
    {
        let d: u8 = buffer[i].wrapping_sub(ZERO);
        proof {
            lemma_accumulate(buffer@, offset as int, i as int, number);
        }
        number = number.wrapping_mul(10).wrapping_add(d as i64);
        i = i + 1;
    }
    proof {
        lemma_crop_step(digits_value(buffer@.subrange(offset as int, length as int)), sign_multiplier as int, 0);
    }
    Ok(number.wrapping_mul(sign_multiplier))
}


/// A frame as a mathematical value.
pub enum FrameModel {
    Array(Seq<FrameModel>),
    SimpleString(Seq<u8>),
    BulkString(Seq<u8>),
    Integer(i64),
    Null,
}

/// One decoded protocol value.
#[derive(Debug, PartialEq)]
pub enum Frame {
    Array(Vec<Frame>),
    SimpleString(Vec<u8>),
    BulkString(Vec<u8>),
    Integer(i64),
    Null,
}

impl View for Frame {
    type V = FrameModel;

    open spec fn view(&self) -> FrameModel
        decreases self,
    {
        match self {
            Frame::Array(items) => FrameModel::Array(frames_view(items@)),
            Frame::SimpleString(v) => FrameModel::SimpleString(v@),
            Frame::BulkString(v) => FrameModel::BulkString(v@),
            Frame::Integer(n) => FrameModel::Integer(*n),
            Frame::Null => FrameModel::Null,
        }
    }
}

/// The models of a sequence of frames.
pub open spec fn frames_view(items: Seq<Frame>) -> Seq<FrameModel>
    decreases items,
{
    Seq::new(
        items.len(),
        |i: int|
            if 0 <= i < items.len() {
                items[i].view()
            } else {
                FrameModel::Null
            },
    )
}

/// Decoding of a simple string's body: the bytes before the first CR.
pub open spec fn simple_string_spec(s: Seq<u8>) -> Result<Seq<u8>, FrameErrors> {
    match position_in(s, CR) {
        Some(end) => Ok(s.subrange(0, end)),
        None => Err(FrameErrors::MissingCRLF),
    }
}

/// Decoding of a bulk string's body: `<len>\r\n<payload>\r\n` where the
/// payload holds exactly `len` bytes, none of them CR or LF.
pub open spec fn bulk_string_spec(s: Seq<u8>) -> Result<Seq<u8>, FrameErrors> {
    match integer_spec(s) {
        Err(e) => Err(e),
        Ok(n) => match position_in(s, LF) {
            None => Err(FrameErrors::MissingCRLF),
            Some(lf) => {
                let start = lf + 1;
                if 0 <= n && start + n < s.len() && s[start + n] == CR && (forall|j: int|
                    start <= j < start + n ==> !is_special(#[trigger] s[j])) {
                    Ok(s.subrange(start, start + n))
                } else {
                    Err(FrameErrors::IncorrectBulkStringLength)
                }
            },
        },
    }
}

/// Prepends `pre` to a successful result.
pub open spec fn prepend(pre: Seq<FrameModel>, r: Result<Seq<FrameModel>, FrameErrors>) -> Result<
    Seq<FrameModel>,
    FrameErrors,
> {
    match r {
        Ok(t) => Ok(pre + t),
        Err(e) => Err(e),
    }
}

/// Decoding of a whole frame from `s`.
pub open spec fn decode_spec(s: Seq<u8>) -> Result<FrameModel, FrameErrors>
    decreases s.len(), 1int,
{
    if s.len() < 2 || s[s.len() - 2] != CR || s[s.len() - 1] != LF {
        Err(FrameErrors::MissingCRLF)
    } else {
        let body = s.subrange(1, s.len() as int);
        if s[0] == PLUS {
            match simple_string_spec(body) {
                Ok(v) => Ok(FrameModel::SimpleString(v)),
                Err(e) => Err(e),
            }
        } else if s[0] == COLON {
            match integer_spec(body) {
                Ok(n) => Ok(FrameModel::Integer(n)),
                Err(e) => Err(e),
            }
        } else if s[0] == DOLLAR {
            match bulk_string_spec(body) {
                Ok(v) => Ok(FrameModel::BulkString(v)),
                Err(e) => Err(e),
            }
        } else if s[0] == STAR {
            match array_spec(body) {
                Ok(items) => Ok(FrameModel::Array(items)),
                Err(e) => Err(e),
            }
        } else {
            Err(FrameErrors::IncorrectFirstByte(s[0]))
        }
    }
}

/// Decoding of an array's body: `<count>\r\n` followed by `count` bulk
/// strings.
pub open spec fn array_spec(s: Seq<u8>) -> Result<Seq<FrameModel>, FrameErrors>
    decreases s.len(), 3int,
{
    match integer_spec(s) {
        Err(e) => Err(e),
        Ok(count) => {
            let first = position_in(s, CR).unwrap() + 2;
            if count <= 0 {
                Ok(Seq::empty())
            } else if first > s.len() {
                Err(FrameErrors::WrongArrayItemFormat)
            } else {
                items_spec(s.subrange(first, s.len() as int), count as int)
            }
        },
    }
}

/// Decoding of `count` array items from the start of `s`; each item
/// spans up to and including the second LF.
pub open spec fn items_spec(s: Seq<u8>, count: int) -> Result<Seq<FrameModel>, FrameErrors>
    decreases s.len(), 2int,
{
    if count <= 0 {
        Ok(Seq::empty())
    } else {
        match position_in(s, LF) {
            None => Err(FrameErrors::WrongArrayItemFormat),
            Some(a) => match position_in(s.subrange(a + 1, s.len() as int), LF) {
                None => Err(FrameErrors::WrongArrayItemFormat),
                Some(b) => {
                    let k = a + b + 2;
                    match decode_spec(s.subrange(0, k)) {
                        Err(e) => Err(e),
                        Ok(FrameModel::BulkString(v)) => prepend(
                            seq![FrameModel::BulkString(v)],
                            items_spec(s.subrange(k, s.len() as int), count - 1),
                        ),
                        Ok(_) => Err(FrameErrors::WrongArrayItemFormat),
                    }
                },
            },
        }
    }
}


/// The model of a decoded byte string, or the error.
pub open spec fn bytes_result(r: Result<Vec<u8>, FrameErrors>) -> Result<Seq<u8>, FrameErrors> {
    match r {
        Ok(v) => Ok(v@),
        Err(e) => Err(e),
    }
}

/// The model of a decoded frame, or the error.
pub open spec fn frame_result(r: Result<Frame, FrameErrors>) -> Result<FrameModel, FrameErrors> {
    match r {
        Ok(f) => Ok(f@),
        Err(e) => Err(e),
    }
}

/// The model of a decoded list of frames, or the error.
pub open spec fn frames_result(r: Result<Vec<Frame>, FrameErrors>) -> Result<
    Seq<FrameModel>,
    FrameErrors,
> {
    match r {
        Ok(v) => Ok(frames_view(v@)),
        Err(e) => Err(e),
    }
}

/// The type tag that opens every frame.
enum FirstByte {
    Plus,
    Colon,
    Dollar,
    Star,
}

impl FirstByte {
    fn try_from(value: u8) -> (r: Result<FirstByte, FrameErrors>)
        ensures
            value == PLUS <==> r == Ok::<FirstByte, FrameErrors>(FirstByte::Plus),
            value == COLON <==> r == Ok::<FirstByte, FrameErrors>(FirstByte::Colon),
            value == DOLLAR <==> r == Ok::<FirstByte, FrameErrors>(FirstByte::Dollar),
            value == STAR <==> r == Ok::<FirstByte, FrameErrors>(FirstByte::Star),
            r is Err ==> r == Err::<FirstByte, FrameErrors>(FrameErrors::IncorrectFirstByte(value)),
    {
        if value == PLUS {
            Ok(FirstByte::Plus)
        } else if value == STAR {
            Ok(FirstByte::Star)
        } else if value == DOLLAR {
            Ok(FirstByte::Dollar)
        } else if value == COLON {
            Ok(FirstByte::Colon)
        } else {
            Err(FrameErrors::IncorrectFirstByte(value))
        }
    }
}

impl Frame {
    /// Decodes one frame that fills the whole buffer.
    pub fn from_bytes(buffer: &[u8]) -> (r: Result<Frame, FrameErrors>)
        ensures
            frame_result(r) == decode_spec(buffer@),
        decreases buffer@.len(), 1int,
    {
        match Frame::check(buffer) {
            Ok(()) => {},
            Err(e) => return Err(e),
        }
        let body = &buffer[1..buffer.len()];
        assert(body@ == buffer@.subrange(1, buffer@.len() as int));
        match FirstByte::try_from(buffer[0]) {
            Err(e) => Err(e),
            Ok(FirstByte::Plus) => match decode_simple_string(body) {
                Ok(v) => Ok(Frame::SimpleString(v)),
                Err(e) => Err(e),
            },
            Ok(FirstByte::Colon) => match decode_integer(body) {
                Ok(n) => Ok(Frame::Integer(n)),
                Err(e) => Err(e),
            },
            Ok(FirstByte::Star) => match decode_array(body) {
                Ok(items) => {
                    Ok(Frame::Array(items))
                },
                Err(e) => Err(e),
            },
            Ok(FirstByte::Dollar) => match decode_bulk_string(body) {
                Ok(v) => Ok(Frame::BulkString(v)),
                Err(e) => Err(e),
            },
        }
    }

    /// The buffer must end with CR LF.
    fn check(buffer: &[u8]) -> (r: Result<(), FrameErrors>)
        ensures
            r is Ok <==> (buffer@.len() >= 2 && buffer@[buffer@.len() - 2] == CR
                && buffer@[buffer@.len() - 1] == LF),
            r is Err ==> r == Err::<(), FrameErrors>(FrameErrors::MissingCRLF),
    {
        let length = buffer.len();
        if length < 2 || buffer[length - 2] != CR || buffer[length - 1] != LF {
            return Err(FrameErrors::MissingCRLF);
        }
        Ok(())
    }
}

/// Decodes a simple string's body: the bytes before the first CR.
fn decode_simple_string(buffer: &[u8]) -> (r: Result<Vec<u8>, FrameErrors>)
    ensures
        bytes_result(r) == simple_string_spec(buffer@),
{
    match get_input_length(buffer) {
        Ok(length) => Ok(slice_to_vec(&buffer[0..length])),
        Err(e) => Err(e),
    }
}

/// Decodes a bulk string's body `<len>\r\n<payload>\r\n`.
fn decode_bulk_string(buffer: &[u8]) -> (r: Result<Vec<u8>, FrameErrors>)
    requires
        buffer@.len() > 0,
    ensures
        bytes_result(r) == bulk_string_spec(buffer@),
{
    let n = match decode_integer(buffer) {
        Ok(n) => n,
        Err(e) => return Err(e),
    };
    let lf = match get_position(buffer, LF) {
        Some(p) => p,
        None => return Err(FrameErrors::MissingCRLF),
    };
    let blen = buffer.len();
    let start = lf + 1;
    if n < 0 {
        return Err(FrameErrors::IncorrectBulkStringLength);
    }
    if n as u64 >= (buffer.len() - start) as u64 {
        return Err(FrameErrors::IncorrectBulkStringLength);
    }
    let data_len = n as usize;
    let end = start + data_len;
    let mut j: usize = start;
    while j < end
        invariant
            start <= j <= end,
            end < buffer@.len(),
            integer_spec(buffer@) == Ok::<i64, FrameErrors>(n),
            position_in(buffer@, LF) == Some(lf as int),
            start == lf + 1,
            end == start + n,
            forall|k: int| start <= k < j ==> !is_special(#[trigger] buffer@[k]),
        decreases end - j,
    {
        if is_special_byte(&buffer[j]) {
            assert(is_special(buffer@[j as int]));
            return Err(FrameErrors::IncorrectBulkStringLength);
        }
        j = j + 1;
    }
    if buffer[end] != CR {
        return Err(FrameErrors::IncorrectBulkStringLength);
    }
    Ok(slice_to_vec(&buffer[start..end]))
}

/// Decodes an array's body: a count, then that many bulk strings.
#[verifier::rlimit(40)]
fn decode_array(buffer: &[u8]) -> (r: Result<Vec<Frame>, FrameErrors>)
    requires
        buffer@.len() > 0,
    ensures
        frames_result(r) == array_spec(buffer@),
    decreases buffer@.len(), 3int,
{
    let items_count = match decode_integer(buffer) {
        Ok(n) => n,
        Err(e) => return Err(e),
    };
    let mut items: Vec<Frame> = Vec::new();
    if items_count <= 0 {
        assert(frames_view(items@) =~= Seq::<FrameModel>::empty());
        return Ok(items);
    }
    let count_length = match get_input_length(buffer) {
        Ok(n) => n,
        Err(e) => return Err(e),
    };
    if count_length >= buffer.len() - 1 {
        return Err(FrameErrors::WrongArrayItemFormat);
    }
    // items start right after `<count>\r\n`
    let mut item_start: usize = count_length + 2;
    let mut i: i64 = 0;
    assert(frames_view(items@) + Seq::<FrameModel>::empty() =~= Seq::<FrameModel>::empty());
    assert(forall|t: Seq<FrameModel>| Seq::<FrameModel>::empty() + t =~= t);
    while i < items_count
        invariant
            0 <= i <= items_count,
            item_start <= buffer@.len(),
            array_spec(buffer@) == prepend(
                frames_view(items@),
                items_spec(buffer@.subrange(item_start as int, buffer@.len() as int), items_count - i),
            ),
        decreases items_count - i,
    {
        let slice = &buffer[item_start..buffer.len()];
        let first_lf = match get_position(slice, LF) {
            Some(p) => p,
            None => return Err(FrameErrors::WrongArrayItemFormat),
        };
        let after_first = &slice[first_lf + 1..slice.len()];
        let second_lf = match get_position(after_first, LF) {
            Some(p) => p,
            None => return Err(FrameErrors::WrongArrayItemFormat),
        };
        // one for each LF
        let item_length = first_lf + 1 + second_lf + 1;
        let item = &slice[0..item_length];
        let ghost rest = slice@.subrange(item_length as int, slice@.len() as int);
        match Frame::from_bytes(item) {
            Ok(Frame::BulkString(val)) => {
                let ghost pre = frames_view(items@);
                let ghost f = FrameModel::BulkString(val@);
                items.push(Frame::BulkString(val));
                proof {
                    assert(frames_view(items@) =~= pre + seq![f]);
                    assert(buffer@.subrange(item_start + item_length, buffer@.len() as int) =~= rest);
                    assert forall|t: Seq<FrameModel>| pre + (seq![f] + t) =~= (pre + seq![f]) + t by {}
                }
                item_start = item_start + item_length;
            },
            Ok(_) => return Err(FrameErrors::WrongArrayItemFormat),
            Err(e) => return Err(e),
        }
        i = i + 1;
    }
    assert(frames_view(items@) + Seq::<FrameModel>::empty() =~= frames_view(items@));
    Ok(items)
}


/// The decimal digits of `n`, most significant first.
pub open spec fn decimal(n: nat) -> Seq<u8>
    decreases n,
{
    if n < 10 {
        seq![(ZERO + n) as u8]
    } else {
        decimal(n / 10).push((ZERO + n % 10) as u8)
    }
}

/// The wire form of a frame. Only simple strings, bulk strings and the
/// null marker have one.
pub open spec fn encode_spec(f: FrameModel) -> Seq<u8> {
    match f {
        FrameModel::SimpleString(v) => seq![PLUS] + v + seq![CR, LF],
        FrameModel::BulkString(v) => seq![DOLLAR] + decimal(v.len()) + seq![CR, LF] + v + seq![
            CR,
            LF,
        ],
        FrameModel::Null => seq![DOLLAR, MINUS, ONE, CR, LF],
        _ => Seq::empty(),
    }
}

/// Whether the frame has a wire form.
pub open spec fn is_encodable(f: FrameModel) -> bool {
    f is SimpleString || f is BulkString || f is Null
}

/// The text held by a simple or bulk string, when it is valid UTF-8.
pub open spec fn text_of(f: FrameModel) -> Option<Seq<char>> {
    match f {
        FrameModel::SimpleString(v) => if valid_utf8(v) {
            Some(decode_utf8(v))
        } else {
            None
        },
        FrameModel::BulkString(v) => if valid_utf8(v) {
            Some(decode_utf8(v))
        } else {
            None
        },
        _ => None,
    }
}

/// Appends `bytes` to `out`.
fn push_all(out: &mut Vec<u8>, bytes: &[u8])
    ensures
        final(out)@ == old(out)@ + bytes@,
{
    let mut i: usize = 0;
    while i < bytes.len()
        invariant
            i <= bytes@.len(),
            out@ == old(out)@ + bytes@.subrange(0, i as int),
        decreases bytes@.len() - i,
    {
        out.push(bytes[i]);
        i = i + 1;
        assert(out@ =~= old(out)@ + bytes@.subrange(0, i as int));
    }
    assert(bytes@.subrange(0, i as int) =~= bytes@);
}

/// The decimal digits of `n` as ASCII bytes.
fn decimal_bytes(n: usize) -> (r: Vec<u8>)
    ensures
        r@ == decimal(n as nat),
    decreases n,
{
    if n < 10 {
        let mut v: Vec<u8> = Vec::new();
        v.push(ZERO + n as u8);
        assert(v@ =~= decimal(n as nat));
        v
    } else {
        let mut v = decimal_bytes(n / 10);
        v.push(ZERO + (n % 10) as u8);
        v
    }
}

/// `+<val>\r\n`
pub fn encode_simple_string(val: &[u8]) -> (r: Vec<u8>)
    ensures
        r@ == encode_spec(FrameModel::SimpleString(val@)),
{
    let mut buffer: Vec<u8> = Vec::new();
    buffer.push(PLUS);
    push_all(&mut buffer, val);
    buffer.push(CR);
    buffer.push(LF);
    assert(buffer@ =~= encode_spec(FrameModel::SimpleString(val@)));
    buffer
}

/// `$<len>\r\n<val>\r\n`
pub fn encode_bulk_string(val: &[u8]) -> (r: Vec<u8>)
    ensures
        r@ == encode_spec(FrameModel::BulkString(val@)),
{
    let len_str = decimal_bytes(val.len());
    let mut buffer: Vec<u8> = Vec::new();
    buffer.push(DOLLAR);
    push_all(&mut buffer, len_str.as_slice());
    buffer.push(CR);
    buffer.push(LF);
    push_all(&mut buffer, val);
    buffer.push(CR);
    buffer.push(LF);
    assert(buffer@ =~= encode_spec(FrameModel::BulkString(val@)));
    buffer
}

/// The null bulk-string marker `$-1\r\n`.
pub fn encode_null() -> (r: Vec<u8>)
    ensures
        r@ == encode_spec(FrameModel::Null),
{
    let mut buffer: Vec<u8> = Vec::new();
    buffer.push(DOLLAR);
    buffer.push(MINUS);
    buffer.push(ONE);
    buffer.push(CR);
    buffer.push(LF);
    assert(buffer@ =~= encode_spec(FrameModel::Null));
    buffer
}

impl Frame {
    /// The wire form of a simple string, a bulk string or the null marker.
    pub fn as_resp_bytes(&self) -> (r: Vec<u8>)
        requires
            is_encodable(self@),
        ensures
            r@ == encode_spec(self@),
    {
        match self {
            Frame::SimpleString(val) => encode_simple_string(val.as_slice()),
            Frame::BulkString(val) => encode_bulk_string(val.as_slice()),
            _ => encode_null(),
        }
    }

    /// The UTF-8 text of a simple or bulk string.
    pub fn as_string(&self) -> (r: Result<String, FrameErrors>)
        ensures
            match r {
                Ok(s) => text_of(self@) == Some(s@),
                Err(e) => text_of(self@) is None && e == FrameErrors::StringInterpretationError,
            },
    {
        match self {
            Frame::SimpleString(val) | Frame::BulkString(val) => match utf8_text(val.as_slice()) {
                Some(s) => Ok(s),
                None => Err(FrameErrors::StringInterpretationError),
            },
            _ => Err(FrameErrors::StringInterpretationError),
        }
    }
}


proof fn lemma_decimal(n: nat)
    ensures
        decimal(n).len() >= 1,
        forall|i: int| 0 <= i < decimal(n).len() ==> ZERO <= #[trigger] decimal(n)[i] <= ZERO + 9,
        digits_value(decimal(n)) == n,
    decreases n,
{
    if n < 10 {
        assert(decimal(n).drop_last() =~= Seq::<u8>::empty());
        assert(digit_value(decimal(n).last()) == n);
        assert(digits_value(Seq::<u8>::empty()) == 0);
        assert(digits_value(decimal(n)) == digits_value(decimal(n).drop_last()) * 10 + digit_value(
            decimal(n).last(),
        ));
    } else {
        lemma_decimal(n / 10);
        assert(decimal(n).drop_last() =~= decimal(n / 10));
        assert(digit_value(decimal(n).last()) == n % 10);
        assert((n / 10) * 10 + n % 10 == n) by (nonlinear_arith);
        assert(digits_value(decimal(n)) == digits_value(decimal(n / 10)) * 10 + digit_value(
            decimal(n).last(),
        ));
    }
}

/// Decoding the wire form of a simple string without CR, or of a bulk
/// string without CR or LF, gives the frame back.
pub proof fn lemma_round_trip(f: FrameModel)
    requires
        match f {
            FrameModel::SimpleString(v) => forall|i: int| 0 <= i < v.len() ==> v[i] != CR,
            FrameModel::BulkString(v) => v.len() <= i64::MAX && forall|i: int|
                0 <= i < v.len() ==> !is_special(#[trigger] v[i]),
            _ => false,
        },
    ensures
        decode_spec(encode_spec(f)) == Ok::<FrameModel, FrameErrors>(f),
{
    let s = encode_spec(f);
    let body = s.subrange(1, s.len() as int);
    match f {
        FrameModel::SimpleString(v) => {
            assert(body =~= v + seq![CR, LF]);
            lemma_position_is(body, CR, v.len() as int);
            assert(body.subrange(0, v.len() as int) =~= v);
        },
        FrameModel::BulkString(v) => {
            let d = decimal(v.len());
            lemma_decimal(v.len());
            assert(body =~= d + seq![CR, LF] + v + seq![CR, LF]);
            lemma_position_is(body, CR, d.len() as int);
            lemma_position_is(body, LF, d.len() as int + 1);
            assert(body.subrange(0, d.len() as int) =~= d);
            assert(sign_len(body) == 0);
            assert(integer_value(body, d.len() as int) == v.len());
            let start = d.len() as int + 2;
            assert(body.subrange(start, start + v.len() as int) =~= v);
        },
        _ => {},
    }
}


impl Frame {
    /// A deep copy of the frame.
    pub fn duplicate(&self) -> (r: Frame)
        ensures
            r@ == self@,
        decreases self,
    {
        match self {
            Frame::Array(items) => {
                proof {
                    assert(decreases_to!(*self => *items));
                }
                let mut copies: Vec<Frame> = Vec::new();
                let mut i: usize = 0;
                while i < items.len()
                    invariant
                        i <= items@.len(),
                        *self == Frame::Array(*items),
                        decreases_to!(*self => *items),
                        copies@.len() == i,
                        frames_view(copies@) =~= frames_view(items@).subrange(0, i as int),
                    decreases items@.len() - i,
                {
                    proof {
                        vstd::std_specs::vec::axiom_vec_index_decreases(*items, i as int);
                    }
                    let c = items[i].duplicate();
                    let ghost prev = copies@;
                    copies.push(c);
                    proof {
                        assert forall|j: int| 0 <= j < copies@.len() implies frames_view(copies@)[j]
                            == frames_view(items@)[j] by {
                            if j < prev.len() {
                                assert(frames_view(prev)[j] == frames_view(items@).subrange(
                                    0,
                                    i as int,
                                )[j]);
                            }
                        }
                    }
                    i = i + 1;
                    assert(frames_view(copies@) =~= frames_view(items@).subrange(0, i as int));
                }
                assert(frames_view(items@).subrange(0, i as int) =~= frames_view(items@));
                Frame::Array(copies)
            },
            Frame::SimpleString(v) => Frame::SimpleString(slice_to_vec(v.as_slice())),
            Frame::BulkString(v) => Frame::BulkString(slice_to_vec(v.as_slice())),
            Frame::Integer(n) => Frame::Integer(*n),
            Frame::Null => Frame::Null,
        }
    }
}

} // verus!
