//! The `/events` stream: frame ids and what a reconnecting client sends back.

use vstd::prelude::*;
use crate::jobs::SequencedEvent;
use crate::text::{decimal, digit_char, format_decimal};

verus! {

/// A byte that a header value may hold for it to read as text: visible ASCII
/// or a tab (`HeaderValue::to_str`).
pub open spec fn is_visible_ascii(b: u8) -> bool {
    (32 <= b && b < 127) || b == 9
}

pub open spec fn is_ascii_digit(b: u8) -> bool {
    48 <= b && b <= 57
}

/// The number that a run of ASCII digits spells.
pub open spec fn digits_value(d: Seq<u8>) -> nat
    decreases d.len(),
{
    if d.len() == 0 {
        0
    } else {
        digits_value(d.drop_last()) * 10 + (d.last() - 48) as nat
    }
}

/// The text after a leading `+`, if any (a lone `+` stays as it is).
pub open spec fn unsigned_digits(s: Seq<u8>) -> Seq<u8> {
    if s.len() > 1 && s[0] == 43 {
        s.drop_first()
    } else {
        s
    }
}

pub open spec fn all_ascii_digits(d: Seq<u8>) -> bool {
    forall|i: int| 0 <= i < d.len() ==> is_ascii_digit(#[trigger] d[i])
}

/// `u64::from_str`: an optional `+`, then one or more ASCII digits whose
/// value fits in a `u64`.
pub open spec fn parse_u64(s: Seq<u8>) -> Option<u64> {
    let digits = unsigned_digits(s);
    if digits.len() == 0 || !all_ascii_digits(digits) || digits_value(digits) > u64::MAX {
        None
    } else {
        Some(digits_value(digits) as u64)
    }
}

pub open spec fn all_visible_ascii(bytes: Seq<u8>) -> bool {
    forall|i: int| 0 <= i < bytes.len() ==> is_visible_ascii(#[trigger] bytes[i])
}

/// The resume point that a `Last-Event-ID` header asks for: the header read
/// as text and then as a `u64`; nothing when it is absent or either step fails.
pub open spec fn resume_point(header: Option<Seq<u8>>) -> Option<u64> {
    match header {
        None => None,
        Some(bytes) => if all_visible_ascii(bytes) {
            parse_u64(bytes)
        } else {
            None
        },
    }
}

proof fn lemma_digits_value_prefix(d: Seq<u8>, i: int)
    requires
        0 <= i <= d.len(),
    ensures
        digits_value(d.take(i)) <= digits_value(d),
    decreases d.len() - i,
{
    if i < d.len() {
        lemma_digits_value_prefix(d, i + 1);
        assert(d.take(i + 1).drop_last() =~= d.take(i));
    } else {
        assert(d.take(i) =~= d);
    }
}

/// Reads `s` as a `u64` the way `u64::from_str` does.
pub fn parse_decimal_u64(s: &[u8]) -> (r: Option<u64>)
    ensures
        r == parse_u64(s@),
{
    let n = s.len();
    let start: usize = if n > 1 && s[0] == 43 {
        1
    } else {
        0
    };
    let ghost digits = unsigned_digits(s@);
    assert(digits =~= s@.skip(start as int));
    if start == n {
        return None;
    }
    let mut value: u64 = 0;
    let mut i: usize = start;
    while i < n
        invariant
            n == s@.len(),
            start <= i <= n,
            start < n,
            digits =~= s@.skip(start as int),
            digits == unsigned_digits(s@),
            forall|j: int| start <= j < i ==> is_ascii_digit(#[trigger] s@[j]),
            value as nat == digits_value(s@.subrange(start as int, i as int)),
        decreases n - i,
    {
        let b = s[i];
        if b < 48 || b > 57 {
            assert(!is_ascii_digit(digits[i - start]));
            assert(!all_ascii_digits(digits));
            return None;
        }
        assert(s@.subrange(start as int, i + 1).drop_last() =~= s@.subrange(start as int, i as int));
        let d = (b - 48) as u64;
        proof {
            lemma_digits_value_prefix(digits, i + 1 - start);
            assert(digits.take(i + 1 - start) =~= s@.subrange(start as int, i + 1));
        }
        assert(digits_value(s@.subrange(start as int, i + 1)) == value * 10 + d);
        if value > (u64::MAX - d) / 10 {
            assert(value * 10 + d > u64::MAX) by (nonlinear_arith)
                requires
                    value > (u64::MAX - d) / 10,
                    d <= 9,
            ;
            return None;
        }
        assert(value * 10 + d <= u64::MAX) by (nonlinear_arith)
            requires
                value <= (u64::MAX - d) / 10,
                d <= 9,
        ;
        value = value * 10 + d;
        i = i + 1;
    }
    assert(s@.subrange(start as int, n as int) =~= digits);
    Some(value)
}

/// The resume point that a `Last-Event-ID` header asks for (`None` when the
/// header is absent, is not visible ASCII, or is not a `u64`).
pub fn last_event_id(header: Option<&[u8]>) -> (r: Option<u64>)
    ensures
        r == resume_point(
            match header {
                Some(b) => Some(b@),
                None => None,
            },
        ),
{
    match header {
        None => None,
        Some(bytes) => {
            let n = bytes.len();
            let mut i: usize = 0;
            while i < n
                invariant
                    n == bytes@.len(),
                    header == Some(bytes),
                    i <= n,
                    forall|j: int| 0 <= j < i ==> is_visible_ascii(#[trigger] bytes@[j]),
                decreases n - i,
            {
                let b = bytes[i];
                if !((32 <= b && b < 127) || b == 9) {
                    assert(!is_visible_ascii(bytes@[i as int]));
                    assert(!all_visible_ascii(bytes@));
                    return None;
                }
                i = i + 1;
            }
            parse_decimal_u64(bytes)
        },
    }
}

/// The `id:` of the stream frame that carries the event numbered `seq`.
pub fn event_id(seq: u64) -> (r: String)
    ensures
        r@ == decimal(seq as nat),
{
    format_decimal(seq)
}

/// The bytes of an ASCII text.
pub open spec fn ascii_bytes(s: Seq<char>) -> Seq<u8> {
    s.map_values(|c: char| c as u8)
}

proof fn lemma_decimal_bytes(n: nat)
    ensures
        ascii_bytes(decimal(n)).len() > 0,
        all_ascii_digits(ascii_bytes(decimal(n))),
        digits_value(ascii_bytes(decimal(n))) == n,
    decreases n,
{
    let d = n % 10;
    assert(digit_char(d) as u8 == 48 + d) by {
        if d == 0 {} else if d == 1 {} else if d == 2 {} else if d == 3 {} else if d == 4 {}
        else if d == 5 {} else if d == 6 {} else if d == 7 {} else if d == 8 {} else {}
    }
    if n < 10 {
        let b = ascii_bytes(decimal(n));
        assert(b =~= seq![digit_char(n) as u8]);
        assert(b.drop_last() =~= Seq::<u8>::empty());
        assert(n == d);
        assert(b.last() == digit_char(n) as u8);
        assert(digits_value(b) == digits_value(b.drop_last()) * 10 + (b.last() - 48) as nat);
    } else {
        lemma_decimal_bytes(n / 10);
        let b = ascii_bytes(decimal(n));
        assert(b.drop_last() =~= ascii_bytes(decimal(n / 10)));
        assert(b.last() == digit_char(d) as u8);
        assert(all_ascii_digits(b)) by {
            assert forall|i: int| 0 <= i < b.len() implies is_ascii_digit(#[trigger] b[i]) by {
                if i < b.len() - 1 {
                    assert(b[i] == b.drop_last()[i]);
                }
            }
        }
        assert(digits_value(b) == (n / 10) * 10 + d);
    }
}

/// A client that reconnects with the id of the last frame it saw asks to
/// resume from exactly that event: `last_event_id` reads back what
/// `event_id` writes.
pub proof fn lemma_event_id_round_trip(seq: u64)
    ensures
        resume_point(Some(ascii_bytes(decimal(seq as nat)))) == Some(seq),
{
    let b = ascii_bytes(decimal(seq as nat));
    lemma_decimal_bytes(seq as nat);
    assert(unsigned_digits(b) == b) by {
        assert(is_ascii_digit(b[0]));
    }
    assert forall|i: int| 0 <= i < b.len() implies is_visible_ascii(#[trigger] b[i]) by {
        assert(is_ascii_digit(b[i]));
    }
    assert(all_visible_ascii(b));
}

/// What a message from the bus becomes on a stream.
pub enum BusMessage<P> {
    /// The next event.
    Event(SequencedEvent<P>),
    /// The subscriber fell behind and missed this many events.
    Lagged(u64),
}

/// A frame of the stream.
pub enum Frame<P> {
    /// The full job list, without an id.
    Snapshot,
    /// One event, with its number as id.
    Sequenced(SequencedEvent<P>),
}

/// Each stream starts with a snapshot; an event is forwarded with its
/// number, and a subscriber that fell behind is re-seeded with a snapshot.
pub fn frame_for<P>(message: BusMessage<P>) -> (r: Frame<P>)
    ensures
        match message {
            BusMessage::Event(e) => r == Frame::Sequenced(e),
            BusMessage::Lagged(_) => r is Snapshot,
        },
{
    match message {
        BusMessage::Event(e) => Frame::Sequenced(e),
        BusMessage::Lagged(_) => Frame::Snapshot,
    }
}

} // verus!
