//! Bytes as text: how far bytes are UTF-8, and what they say.

use vstd::prelude::*;
use vstd::string::*;

verus! {

/// How many bytes at the start of `b` are whole characters in UTF-8, before the first that are not.
pub open spec fn decodable(b: Seq<u8>) -> nat
    decreases b.len(),
{
    if b.len() > 0 && vstd::utf8::valid_first_scalar(b) {
        (vstd::utf8::length_of_first_scalar(b) + decodable(vstd::utf8::pop_first_scalar(b))) as nat
    } else {
        0
    }
}

/// What `String::from_utf8_lossy` of std makes of bytes.
pub uninterp spec fn lossy_text(b: Seq<u8>) -> Seq<char>;

/// `String::from_utf8_lossy` of std: the result depends on the bytes alone, and bytes that are
/// UTF-8 are decoded as such. What stands for other bytes is left unsaid.
#[verifier::external_body]
pub(crate) fn lossy(b: &[u8]) -> (r: String)
    ensures
        r@ == lossy_text(b@),
        vstd::utf8::valid_utf8(b@) ==> r@ == vstd::utf8::decode_utf8(b@),
{
    String::from_utf8_lossy(b).into_owned()
}

/// `std::str::from_utf8` of std, with the index in its error: the greatest length at which the
/// start of `b` is UTF-8.
#[verifier::external_body]
pub(crate) fn valid_up_to(b: &[u8]) -> (r: usize)
    ensures
        r <= b@.len(),
        vstd::utf8::valid_utf8(b@.take(r as int)),
        forall|n: int| r < n <= b@.len() ==> !vstd::utf8::valid_utf8(#[trigger] b@.take(n)),
{
    match std::str::from_utf8(b) {
        Ok(_) => b.len(),
        Err(e) => e.valid_up_to(),
    }
}

// ---- characters at the start ----------------------------------------------------------------

/// The first character of bytes does not depend on what follows it.
proof fn first_scalar_of_longer(a: Seq<u8>, b: Seq<u8>)
    requires
        vstd::utf8::valid_first_scalar(a),
    ensures
        vstd::utf8::valid_first_scalar(a + b),
        vstd::utf8::length_of_first_scalar(a + b) == vstd::utf8::length_of_first_scalar(a),
        vstd::utf8::decode_first_scalar(a + b) == vstd::utf8::decode_first_scalar(a),
        vstd::utf8::pop_first_scalar(a + b) == vstd::utf8::pop_first_scalar(a) + b,
        0 < vstd::utf8::length_of_first_scalar(a) <= a.len(),
{
    let s = a + b;
    assert forall|i: int| 0 <= i < a.len() implies s[i] == a[i] by {}
    assert(vstd::utf8::pop_first_scalar(s) =~= vstd::utf8::pop_first_scalar(a) + b);
}

/// Bytes that hold all of the first character begin with a character.
proof fn first_scalar_of_shorter(a: Seq<u8>, b: Seq<u8>)
    requires
        vstd::utf8::valid_first_scalar(a + b),
        vstd::utf8::length_of_first_scalar(a + b) <= a.len(),
    ensures
        vstd::utf8::valid_first_scalar(a),
{
    let s = a + b;
    assert forall|i: int| 0 <= i < a.len() implies s[i] == a[i] by {}
}

/// The decodable start of bytes is UTF-8, and no longer start is.
pub proof fn decodable_is_greatest(b: Seq<u8>)
    ensures
        decodable(b) <= b.len(),
        vstd::utf8::valid_utf8(b.take(decodable(b) as int)),
        forall|n: int|
            decodable(b) < n <= b.len() ==> !vstd::utf8::valid_utf8(#[trigger] b.take(n)),
    decreases b.len(),
{
    if b.len() > 0 && vstd::utf8::valid_first_scalar(b) {
        let len = vstd::utf8::length_of_first_scalar(b);
        let rest = vstd::utf8::pop_first_scalar(b);
        decodable_is_greatest(rest);
        let n = decodable(b) as int;
        assert(b =~= b.take(n) + b.skip(n));
        first_scalar_of_shorter(b.take(n), b.skip(n));
        first_scalar_of_longer(b.take(n), b.skip(n));
        assert(vstd::utf8::pop_first_scalar(b.take(n)) =~= rest.take(n - len));
        assert forall|m: int| n < m <= b.len() implies !vstd::utf8::valid_utf8(
            #[trigger] b.take(m),
        ) by {
            assert(b =~= b.take(m) + b.skip(m));
            first_scalar_of_shorter(b.take(m), b.skip(m));
            first_scalar_of_longer(b.take(m), b.skip(m));
            assert(vstd::utf8::pop_first_scalar(b.take(m)) =~= rest.take(m - len));
            assert(!vstd::utf8::valid_utf8(rest.take(m - len)));
        }
    } else {
        assert(b.take(0) =~= Seq::<u8>::empty());
        assert forall|m: int| 0 < m <= b.len() implies !vstd::utf8::valid_utf8(
            #[trigger] b.take(m),
        ) by {
            if vstd::utf8::valid_utf8(b.take(m)) {
                assert(vstd::utf8::valid_first_scalar(b.take(m)));
                first_scalar_of_longer(b.take(m), b.skip(m));
                assert(b =~= b.take(m) + b.skip(m));
            }
        }
    }
}

/// Measures the decodable start of bytes.
pub fn count_decodable(b: &[u8]) -> (r: usize)
    ensures
        r == decodable(b@),
        r <= b@.len(),
        vstd::utf8::valid_utf8(b@.take(r as int)),
{
    let n = valid_up_to(b);
    proof {
        decodable_is_greatest(b@);
        let d = decodable(b@) as int;
        if n < d {
            assert(!vstd::utf8::valid_utf8(b@.take(d)));
        } else if d < n {
            assert(!vstd::utf8::valid_utf8(b@.take(n as int)));
        }
    }
    n
}

/// Two texts in UTF-8, one after the other, are the text of both.
pub proof fn decode_of_both(a: Seq<u8>, b: Seq<u8>)
    requires
        vstd::utf8::valid_utf8(a),
        vstd::utf8::valid_utf8(b),
    ensures
        vstd::utf8::valid_utf8(a + b),
        vstd::utf8::decode_utf8(a + b) == vstd::utf8::decode_utf8(a) + vstd::utf8::decode_utf8(b),
    decreases a.len(),
{
    if a.len() == 0 {
        assert(a + b =~= b);
        assert(vstd::utf8::decode_utf8(a) =~= Seq::<char>::empty());
        assert(Seq::<char>::empty() + vstd::utf8::decode_utf8(b) =~= vstd::utf8::decode_utf8(b));
    } else {
        first_scalar_of_longer(a, b);
        decode_of_both(vstd::utf8::pop_first_scalar(a), b);
        assert((a + b).len() > 0);
        assert(vstd::utf8::valid_utf8(a + b));
        let c = seq![vstd::utf8::decode_first_scalar(a) as char];
        let d = vstd::utf8::decode_utf8(vstd::utf8::pop_first_scalar(a));
        assert(vstd::utf8::decode_utf8(a + b) == c + (d + vstd::utf8::decode_utf8(b)));
        assert(c + (d + vstd::utf8::decode_utf8(b)) =~= (c + d) + vstd::utf8::decode_utf8(b));
    }
}

/// What follows UTF-8 in UTF-8 is UTF-8.
pub proof fn rest_is_utf8(a: Seq<u8>, b: Seq<u8>)
    requires
        vstd::utf8::valid_utf8(a),
        vstd::utf8::valid_utf8(a + b),
    ensures
        vstd::utf8::valid_utf8(b),
    decreases a.len(),
{
    if a.len() == 0 {
        assert(a + b =~= b);
    } else {
        first_scalar_of_longer(a, b);
        assert((a + b).len() > 0);
        rest_is_utf8(vstd::utf8::pop_first_scalar(a), b);
    }
}

/// The start of UTF-8 breaks off in at most one character, of which it then has at most three
/// bytes.
pub proof fn broken_off_at_most(a: Seq<u8>, b: Seq<u8>)
    requires
        vstd::utf8::valid_utf8(a + b),
    ensures
        a.len() - decodable(a) <= 3,
    decreases a.len(),
{
    if a.len() > 0 {
        assert((a + b).len() > 0);
        assert(vstd::utf8::valid_first_scalar(a + b));
        if vstd::utf8::length_of_first_scalar(a + b) <= a.len() {
            first_scalar_of_shorter(a, b);
            first_scalar_of_longer(a, b);
            broken_off_at_most(vstd::utf8::pop_first_scalar(a), b);
        }
    }
}

/// All of UTF-8 is decodable.
pub proof fn decodable_of_utf8(b: Seq<u8>)
    requires
        vstd::utf8::valid_utf8(b),
    ensures
        decodable(b) == b.len(),
{
    decodable_is_greatest(b);
    assert(b.take(b.len() as int) =~= b);
}

} // verus!
