use vstd::prelude::*;

use crate::codec::{append_u64, dec_digits};
use crate::ext::push_char;

verus! {

/// The decimal text of a signed value: a minus sign before the digits of
/// its magnitude when the value is negative.
pub open spec fn dec_i64(n: int) -> Seq<char> {
    if n < 0 {
        seq!['-'] + dec_digits((-n) as nat)
    } else {
        dec_digits(n as nat)
    }
}

/// The low byte of a timestamp, as the two's-complement truncation gives it.
pub open spec fn low_byte(ts: i64) -> int {
    if ts >= 0 {
        (ts as int) % 256
    } else {
        255 - ((-(ts as int + 1)) % 256)
    }
}

/// One id letter: `a` shifted by the timestamp's low byte plus one random
/// byte, reduced modulo the alphabet.
pub open spec fn id_letter(low: int, b: u8) -> char {
    ((((low + b) % 256) % 26 + 97) as u8) as char
}

/// The letters derived from the random bytes, in order.
pub open spec fn id_letters(low: int, bs: Seq<u8>) -> Seq<char>
    decreases bs.len(),
{
    if bs.len() == 0 {
        Seq::empty()
    } else {
        seq![id_letter(low, bs.first())] + id_letters(low, bs.drop_first())
    }
}

/// A correlation id: epoch milliseconds, an underscore, and one letter per
/// random byte.
pub open spec fn req_id_of(ts: i64, bs: Seq<u8>) -> Seq<char> {
    dec_i64(ts as int) + seq!['_'] + id_letters(low_byte(ts), bs)
}

/// One more random byte extends the letters by one more letter.
proof fn lemma_id_letters_push(low: int, bs: Seq<u8>, b: u8)
    ensures
        id_letters(low, bs.push(b)) == id_letters(low, bs) + seq![id_letter(low, b)],
    decreases bs.len(),
{
    let u = bs.push(b);
    assert(u.len() == bs.len() + 1);
    assert(id_letters(low, u) == seq![id_letter(low, u.first())] + id_letters(
        low,
        u.drop_first(),
    ));
    if bs.len() == 0 {
        assert(u.first() == b);
        assert(u.drop_first() =~= Seq::<u8>::empty());
        assert(id_letters(low, Seq::<u8>::empty()) == Seq::<char>::empty());
        assert(seq![id_letter(low, b)] + Seq::<char>::empty() =~= seq![id_letter(low, b)]);
        assert(Seq::<char>::empty() + seq![id_letter(low, b)] =~= seq![id_letter(low, b)]);
    } else {
        assert(u.first() == bs.first());
        assert(u.drop_first() =~= bs.drop_first().push(b));
        lemma_id_letters_push(low, bs.drop_first(), b);
        assert(id_letters(low, bs) == seq![id_letter(low, bs.first())] + id_letters(
            low,
            bs.drop_first(),
        ));
        assert(seq![id_letter(low, bs.first())] + (id_letters(low, bs.drop_first()) + seq![
            id_letter(low, b),
        ]) =~= (seq![id_letter(low, bs.first())] + id_letters(low, bs.drop_first())) + seq![
            id_letter(low, b),
        ]);
    }
}

/// Appends the decimal text of `n`, sign included.
fn append_i64(out: &mut String, n: i64)
    ensures
        final(out)@ == old(out)@ + dec_i64(n as int),
{
    if n >= 0 {
        append_u64(out, n as u64);
    } else {
        push_char(out, '-');
        let m: u64 = ((-(n + 1)) as u64) + 1;
        append_u64(out, m);
        proof {
            assert(m as nat == (-(n as int)) as nat);
            assert(out@ =~= old(out)@ + dec_i64(n as int));
        }
    }
}

/// The correlation id derived from a timestamp and the random bytes, one
/// lowercase letter per byte after the underscore.
pub fn request_id_from(timestamp: i64, random: &Vec<u8>) -> (r: String)
    ensures
        r@ == req_id_of(timestamp, random@),
{
    let mut out = String::new();
    append_i64(&mut out, timestamp);
    push_char(&mut out, '_');
    let low: u32 = if timestamp >= 0 {
        (timestamp % 256) as u32
    } else {
        255 - ((-(timestamp + 1)) % 256) as u32
    };
    let ghost prefix = out@;
    let mut i: usize = 0;
    proof {
        assert(random@.take(0) =~= Seq::<u8>::empty());
        assert(out@ =~= prefix + id_letters(low_byte(timestamp), random@.take(0)));
    }
    while i < random.len()
        invariant
            low == low_byte(timestamp),
            i <= random@.len(),
            out@ == prefix + id_letters(low_byte(timestamp), random@.take(i as int)),
            prefix == dec_i64(timestamp as int) + seq!['_'],
        decreases random@.len() - i,
    {
        let b = random[i];
        let code: u32 = (((low + (b as u32)) % 256) % 26) + 97;
        push_char(&mut out, (code as u8) as char);
        proof {
            lemma_id_letters_push(low_byte(timestamp), random@.take(i as int), b);
            assert(random@.take(i + 1) =~= random@.take(i as int).push(b));
            assert((code as u8) as char == id_letter(low_byte(timestamp), b));
            assert(out@ =~= prefix + id_letters(low_byte(timestamp), random@.take(i + 1)));
        }
        i += 1;
    }
    proof {
        assert(random@.take(random@.len() as int) =~= random@);
        assert(out@ =~= req_id_of(timestamp, random@));
    }
    out
}

/// A fresh correlation id: the clock's epoch milliseconds and nine letters
/// drawn from the random generator. Collision-resistant in practice, with
/// no uniqueness guarantee.
pub fn generate_request_id() -> (r: String)
    ensures
        exists|ts: i64, bs: Seq<u8>| bs.len() == 9 && r@ == req_id_of(ts, bs),
{
    let ts = crate::ext::now_timestamp_millis();
    let mut random: Vec<u8> = Vec::new();
    let mut i: usize = 0;
    while i < 9
        invariant
            random@.len() == i,
            i <= 9,
        decreases 9 - i,
    {
        random.push(rand::random::<u8>());
        i += 1;
    }
    let r = request_id_from(ts, &random);
    proof {
        assert(random@.len() == 9 && r@ == req_id_of(ts, random@));
    }
    r
}

} // verus!
