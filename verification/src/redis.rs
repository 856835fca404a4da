//! A small Redis server's frame codec and key-value store.

use vstd::prelude::*;
use vstd::utf8::encode_utf8;


verus! {

/// The decimal digits of `n`, as ASCII bytes, most significant first.
pub open spec fn decimal_bytes(n: nat) -> Seq<u8>
    decreases n,
{
    if n < 10 {
        seq![(48 + n) as u8]
    } else {
        decimal_bytes(n / 10).push((48 + n % 10) as u8)
    }
}

/// The decimal digits of `n` as ASCII bytes.
pub fn decimal(n: u64) -> (r: Vec<u8>)
    ensures
        r@ == decimal_bytes(n as nat),
    decreases n,
{
    if n < 10 {
        let mut r: Vec<u8> = Vec::new();
        r.push((48 + n) as u8);
        r
    } else {
        let mut r = decimal(n / 10);
        r.push((48 + n % 10) as u8);
        r
    }
}

/// The number that a sequence of ASCII decimal digits stands for.
pub open spec fn decimal_value(s: Seq<u8>) -> nat
    decreases s.len(),
{
    if s.len() == 0 {
        0
    } else {
        decimal_value(s.drop_last()) * 10 + (s.last() - 48) as nat
    }
}

/// Each byte of `s` is an ASCII digit.
pub open spec fn all_digits(s: Seq<u8>) -> bool {
    forall|i: int| 0 <= i < s.len() ==> 48 <= #[trigger] s[i] <= 57
}

/// Writing a number in decimal loses nothing: the digits written read back
/// as the same number, and every byte written is a digit.
pub proof fn lemma_decimal_round_trip(n: nat)
    ensures
        all_digits(decimal_bytes(n)),
        decimal_value(decimal_bytes(n)) == n,
        decimal_bytes(n).len() >= 1,
    decreases n,
{
    let d = decimal_bytes(n);
    if n >= 10 {
        lemma_decimal_round_trip(n / 10);
        assert(d.drop_last() == decimal_bytes(n / 10));
        assert(d.last() == (48 + n % 10) as u8);
        assert((48 + n % 10) as u8 == 48 + n % 10);
        vstd::arithmetic::div_mod::lemma_fundamental_div_mod(n as int, 10);
        assert(decimal_value(d) == (n / 10) * 10 + n % 10);
        assert((n / 10) * 10 + n % 10 == n) by (nonlinear_arith)
            requires
                n as int == 10 * (n as int / 10) + n as int % 10,
        ;
    } else {
        assert(d.last() == (48 + n) as u8);
        assert((48 + n) as u8 == 48 + n);
        assert(d.drop_last() =~= Seq::<u8>::empty());
        assert(decimal_value(d.drop_last()) == 0);
        assert(decimal_value(d) == n);
    }
}

/// Carriage return and line feed.
pub open spec fn crlf() -> Seq<u8> {
    seq![13u8, 10u8]
}

/// `n` in decimal followed by `\r\n`, as the server writes a number.
pub open spec fn decimal_line_bytes(n: nat) -> Seq<u8> {
    decimal_bytes(n) + crlf()
}

fn append_bytes(v: &mut Vec<u8>, b: &[u8])
    ensures
        final(v)@ == old(v)@ + b@,
{
    let mut i: usize = 0;
    while i < b.len()
        invariant
            i <= b@.len(),
            v@ == old(v)@ + b@.take(i as int),
        decreases b@.len() - i,
    {
        v.push(b[i]);
        assert(b@.take(i + 1) == b@.take(i as int).push(b@[i as int]));
        i += 1;
    }
    assert(b@.take(b@.len() as int) == b@);
}

fn push_crlf(v: &mut Vec<u8>)
    ensures
        final(v)@ == old(v)@ + crlf(),
{
    v.push(13u8);
    v.push(10u8);
    assert(final(v)@ =~= old(v)@ + crlf());
}

/// The bytes that write `val` as a number line: its decimal digits and
/// `\r\n`.
pub fn write_decimal(val: u64) -> (r: Vec<u8>)
    ensures
        r@ == decimal_line_bytes(val as nat),
{
    let mut r = decimal(val);
    push_crlf(&mut r);
    r
}

/// A reply frame of the Redis protocol.
#[derive(Debug)]
pub enum RespFrame {
    Simple(String),
    Error(String),
    Integer(u64),
    Bulk(Vec<u8>),
    Null,
    Array(Vec<RespFrame>),
}

/// What a frame denotes.
pub ghost enum RespFrameView {
    Simple(Seq<char>),
    Error(Seq<char>),
    Integer(u64),
    Bulk(Seq<u8>),
    Null,
    Array(Seq<RespFrameView>),
}

/// What the frame `f` denotes.
pub open spec fn frame_view(f: RespFrame) -> RespFrameView
    decreases f,
{
    match f {
        RespFrame::Simple(s) => RespFrameView::Simple(s@),
        RespFrame::Error(s) => RespFrameView::Error(s@),
        RespFrame::Integer(n) => RespFrameView::Integer(n),
        RespFrame::Bulk(b) => RespFrameView::Bulk(b@),
        RespFrame::Null => RespFrameView::Null,
        RespFrame::Array(items) => RespFrameView::Array(
            Seq::new(
                items@.len(),
                |i: int|
                    if 0 <= i < items@.len() {
                        frame_view(items@[i])
                    } else {
                        RespFrameView::Null
                    },
            ),
        ),
    }
}

impl View for RespFrame {
    type V = RespFrameView;

    open spec fn view(&self) -> RespFrameView {
        frame_view(*self)
    }
}

/// The arrays in `f` nest at most `limit` deep: an array counts one level
/// more than the deepest frame it holds.
pub open spec fn nests_within(f: RespFrameView, limit: int) -> bool
    decreases limit,
{
    match f {
        RespFrameView::Array(items) => limit >= 1 && forall|i: int|
            0 <= i < items.len() ==> nests_within(#[trigger] items[i], limit - 1),
        _ => true,
    }
}

/// Whether the arrays in `f` nest at most `limit` deep.
pub fn frame_nests_within(f: &RespFrame, limit: usize) -> (r: bool)
    ensures
        r == nests_within(f@, limit as int),
    decreases limit,
{
    match f {
        RespFrame::Array(items) => {
            if limit == 0 {
                return false;
            }
            let ghost fv = f@;
            assert(fv matches RespFrameView::Array(s) && s.len() == items@.len());
            assert forall|j: int| 0 <= j < items@.len() implies fv->Array_0[j] == #[trigger] items@[j]@ by {}
            let mut i: usize = 0;
            while i < items.len()
                invariant
                    i <= items@.len(),
                    limit >= 1,
                    fv == f@,
                    forall|j: int| 0 <= j < items@.len() ==> fv->Array_0[j] == #[trigger] items@[j]@,
                    fv matches RespFrameView::Array(s) && s.len() == items@.len() && forall|j: int|
                        0 <= j < i ==> nests_within(#[trigger] s[j], limit - 1),
                decreases items@.len() - i,
            {
                if !frame_nests_within(&items[i], limit - 1) {
                    return false;
                }
                i += 1;
            }
            true
        },
        _ => true,
    }
}

/// The wire form of a frame: a type byte (`+`, `-`, `:`, `$`), the text,
/// number or length, `\r\n`, and for bulk data the bytes and `\r\n`; a null
/// is `$-1\r\n`. Arrays are received, never written: they have no wire form
/// here.
pub open spec fn encode(f: RespFrameView) -> Seq<u8> {
    match f {
        RespFrameView::Simple(s) => seq![43u8] + encode_utf8(s) + crlf(),
        RespFrameView::Error(s) => seq![45u8] + encode_utf8(s) + crlf(),
        RespFrameView::Integer(n) => seq![58u8] + decimal_line_bytes(n as nat),
        RespFrameView::Bulk(b) => seq![36u8] + decimal_line_bytes(b.len()) + b + crlf(),
        RespFrameView::Null => seq![36u8, 45u8, 49u8, 13u8, 10u8],
        RespFrameView::Array(_) => Seq::empty(),
    }
}

/// The bytes that write `frame` to a connection.
pub fn frame_bytes(frame: &RespFrame) -> (r: Vec<u8>)
    requires
        !(frame@ is Array),
    ensures
        r@ == encode(frame@),
{
    let mut r: Vec<u8> = Vec::new();
    match frame {
        RespFrame::Simple(s) => {
            r.push(43u8);
            append_bytes(&mut r, s.as_str().as_bytes());
            push_crlf(&mut r);
        },
        RespFrame::Error(s) => {
            r.push(45u8);
            append_bytes(&mut r, s.as_str().as_bytes());
            push_crlf(&mut r);
        },
        RespFrame::Integer(n) => {
            r.push(58u8);
            let d = write_decimal(*n);
            append_bytes(&mut r, d.as_slice());
        },
        RespFrame::Bulk(b) => {
            r.push(36u8);
            let d = write_decimal(b.len() as u64);
            append_bytes(&mut r, d.as_slice());
            append_bytes(&mut r, b.as_slice());
            push_crlf(&mut r);
        },
        RespFrame::Null => {
            r.push(36u8);
            r.push(45u8);
            r.push(49u8);
            push_crlf(&mut r);
        },
        RespFrame::Array(_) => {},
    }
    assert(r@ =~= encode(frame@));
    r
}

} // verus!
