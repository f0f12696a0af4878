//! The text form of a UUID and the UUID field codec: a UUID's text, stored in a UUID
//! field, reads back as the UUID.
use vstd::prelude::*;
use crate::value::{hex_char, byte_hex, uuid_text, uuid_text_upto};
use crate::table::rows::{uuid_from_hex, hex_digits, is_hex_code, hex_val};

verus! {

// ---------------------------------------------------------------------------
// UUID text
// ---------------------------------------------------------------------------

/// The hexadecimal digits of texts one after the other.
proof fn lemma_hex_digits_concat(a: Seq<char>, b: Seq<char>)
    ensures
        hex_digits(a + b) == hex_digits(a) + hex_digits(b),
    decreases b.len(),
{
    if b.len() == 0 {
        assert(a + b =~= a);
        assert(hex_digits(a) + hex_digits(b) =~= hex_digits(a));
    } else {
        lemma_hex_digits_concat(a, b.drop_last());
        assert((a + b).drop_last() =~= a + b.drop_last());
        assert((a + b).last() == b.last());
        assert(hex_digits(a + b) =~= hex_digits(a) + hex_digits(b));
    }
}

/// A hexadecimal digit character is a hexadecimal digit code of its value.
proof fn lemma_hex_char(d: nat)
    requires
        d < 16,
    ensures
        is_hex_code(hex_char(d) as u32),
        hex_val((hex_char(d) as u32) as u8) == d,
{
}

/// The digit codes of the text of a UUID's first `i` bytes.
pub open spec fn uuid_digit_codes(b: Seq<u8>, i: nat) -> Seq<u8>
    decreases i,
{
    if i == 0 {
        Seq::empty()
    } else {
        let x = b[i - 1];
        uuid_digit_codes(b, (i - 1) as nat)
            + seq![(hex_char((x / 16) as nat) as u32) as u8, (hex_char((x % 16) as nat) as u32) as u8]
    }
}

/// The hexadecimal digits of the text of a UUID's first `i` bytes: two per byte.
proof fn lemma_uuid_text_digits(b: Seq<u8>, i: nat)
    requires
        i <= b.len(),
    ensures
        hex_digits(uuid_text_upto(b, i)) == uuid_digit_codes(b, i),
        uuid_digit_codes(b, i).len() == 2 * i,
    decreases i,
{
    if i > 0 {
        let k = (i - 1) as nat;
        reveal_with_fuel(hex_digits, 3);
        lemma_uuid_text_digits(b, k);
        let x = b[k as int];
        let dash: Seq<char> = if k == 4 || k == 6 || k == 8 || k == 10 { seq!['-'] } else { Seq::empty() };
        lemma_hex_digits_concat(uuid_text_upto(b, k), dash);
        lemma_hex_digits_concat(uuid_text_upto(b, k) + dash, byte_hex(x));
        assert(hex_digits(dash) =~= Seq::<u8>::empty()) by {
            if dash.len() > 0 {
                assert(dash.drop_last() =~= Seq::<char>::empty());
                assert(('-' as u32) == 45);
            }
        }
        lemma_hex_char((x / 16) as nat);
        lemma_hex_char((x % 16) as nat);
        let h = byte_hex(x);
        assert(h.drop_last() =~= seq![hex_char((x / 16) as nat)]);
        assert(seq![hex_char((x / 16) as nat)].drop_last() =~= Seq::<char>::empty());
        assert(hex_digits(h) =~= seq![(hex_char((x / 16) as nat) as u32) as u8, (hex_char((x % 16) as nat) as u32) as u8]);
    }
}

/// The text of a UUID, written to a UUID field, reads back as the UUID: its hexadecimal
/// digits give back the bytes.
pub proof fn law_uuid_text_roundtrip(b: Seq<u8>)
    requires
        b.len() == 16,
    ensures
        uuid_from_hex(hex_digits(uuid_text(b))) == b,
{
    lemma_uuid_text_digits(b, 16);
    let h = uuid_digit_codes(b, 16);
    assert forall|k: int| 0 <= k < 16 implies #[trigger] uuid_from_hex(h)[k] == b[k] by {
        lemma_uuid_digit_codes_at(b, 16, k);
        let x = b[k];
        lemma_hex_char((x / 16) as nat);
        lemma_hex_char((x % 16) as nat);
    }
    assert(uuid_from_hex(h) =~= b);
}

/// The two digit codes of byte `k`.
proof fn lemma_uuid_digit_codes_at(b: Seq<u8>, i: nat, k: int)
    requires
        i <= b.len(),
        0 <= k < i,
    ensures
        uuid_digit_codes(b, i).len() == 2 * i,
        uuid_digit_codes(b, i)[2 * k] == (hex_char((b[k] / 16) as nat) as u32) as u8,
        uuid_digit_codes(b, i)[2 * k + 1] == (hex_char((b[k] % 16) as nat) as u32) as u8,
    decreases i,
{
    lemma_uuid_text_digits(b, i);
    if k < i - 1 {
        lemma_uuid_digit_codes_at(b, (i - 1) as nat, k);
        lemma_uuid_text_digits(b, (i - 1) as nat);
    }
}

} // verus!
