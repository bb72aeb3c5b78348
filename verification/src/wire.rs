//! The wire format: one JSON object per drained bucket, with exact
//! field names and casing, the fields in lexicographic order, and the
//! values encoded as JSON numbers and strings.

use vstd::prelude::*;
use vstd::string::StringSliceAdditionalSpecFns;
use vstd::utf8::encode_utf8;

use crate::accountant::{unit_wire, UsageUnit};

verus! {

/// A wire-shaped record: one is produced per drained bucket and
/// never round-trips back into the table.
pub struct OutgoingMessage {
    pub timestamp: u64,
    pub shared_resource_id: String,
    pub app_feature: String,
    pub usage_unit: UsageUnit,
    pub amount: u64,
}

/// The mathematical image of a wire record.
pub ghost struct MessageView {
    pub timestamp: u64,
    pub shared_resource_id: Seq<char>,
    pub app_feature: Seq<char>,
    pub usage_unit: UsageUnit,
    pub amount: u64,
}

impl View for OutgoingMessage {
    type V = MessageView;

    open spec fn view(&self) -> MessageView {
        MessageView {
            timestamp: self.timestamp,
            shared_resource_id: self.shared_resource_id@,
            app_feature: self.app_feature@,
            usage_unit: self.usage_unit,
            amount: self.amount,
        }
    }
}

/// The decimal digits of `n`, most significant first.
pub open spec fn dec_digits(n: nat) -> Seq<u8>
    decreases n,
{
    if n < 10 {
        seq![(0x30 + n) as u8]
    } else {
        dec_digits(n / 10).push((0x30 + n % 10) as u8)
    }
}

/// The lowercase hexadecimal digit of a value below 16.
pub open spec fn hex_nibble(n: u8) -> u8 {
    if n < 10 {
        (0x30 + n) as u8
    } else {
        (0x57 + n) as u8
    }
}

/// The JSON encoding of one byte of a string: quote and backslash get
/// two-byte escapes, control bytes get their short escape or the
/// six-byte form, everything else stands for itself.
pub open spec fn escape_byte(b: u8) -> Seq<u8> {
    if b == 0x22 {
        seq![0x5cu8, 0x22u8]
    } else if b == 0x5c {
        seq![0x5cu8, 0x5cu8]
    } else if b == 0x08 {
        seq![0x5cu8, 0x62u8]
    } else if b == 0x09 {
        seq![0x5cu8, 0x74u8]
    } else if b == 0x0a {
        seq![0x5cu8, 0x6eu8]
    } else if b == 0x0c {
        seq![0x5cu8, 0x66u8]
    } else if b == 0x0d {
        seq![0x5cu8, 0x72u8]
    } else if b < 0x20 {
        seq![0x5cu8, 0x75u8, 0x30u8, 0x30u8, hex_nibble(b / 16), hex_nibble(b % 16)]
    } else {
        seq![b]
    }
}

/// The JSON encoding of the bytes of a string, without the quotes.
pub open spec fn escape_bytes(s: Seq<u8>) -> Seq<u8>
    decreases s.len(),
{
    if s.len() == 0 {
        Seq::empty()
    } else {
        escape_bytes(s.drop_last()) + escape_byte(s.last())
    }
}

/// The JSON string encoding the given bytes: quotes around the
/// escaped contents.
pub open spec fn json_string(s: Seq<u8>) -> Seq<u8> {
    seq![0x22u8] + escape_bytes(s) + seq![0x22u8]
}

/// The JSON string encoding the UTF-8 bytes of the given characters.
pub open spec fn json_string_of(s: Seq<char>) -> Seq<u8> {
    json_string(encode_utf8(s))
}

/// The full wire message: a JSON object whose fields are, in order,
/// `amount`, `app_feature`, `shared_resource_id`, `timestamp` and
/// `usage_unit`.
pub open spec fn message_json(m: MessageView) -> Seq<u8> {
    seq![0x7bu8] + json_string_of("amount"@) + seq![0x3au8] + dec_digits(m.amount as nat)
        + seq![0x2cu8] + json_string_of("app_feature"@) + seq![0x3au8] + json_string_of(
        m.app_feature,
    ) + seq![0x2cu8] + json_string_of("shared_resource_id"@) + seq![0x3au8] + json_string_of(
        m.shared_resource_id,
    ) + seq![0x2cu8] + json_string_of("timestamp"@) + seq![0x3au8] + dec_digits(m.timestamp as nat)
        + seq![0x2cu8] + json_string_of("usage_unit"@) + seq![0x3au8] + json_string_of(
        unit_wire(m.usage_unit),
    ) + seq![0x7du8]
}

/// Appends the decimal digits of `n`.
fn push_dec_u64(out: &mut Vec<u8>, n: u64)
    ensures
        final(out)@ == old(out)@ + dec_digits(n as nat),
    decreases n,
{
    if n < 10 {
        out.push(0x30 + n as u8);
    } else {
        proof {
            assert(n as nat / 10 < n as nat);
        }
        push_dec_u64(out, n / 10);
        let d = 0x30 + (n % 10) as u8;
        out.push(d);
        proof {
            assert(final(out)@ =~= old(out)@ + dec_digits(n as nat));
        }
    }
}

/// The lowercase hexadecimal digit of a value below 16.
fn hex_digit(n: u8) -> (r: u8)
    requires
        n < 16,
    ensures
        r == hex_nibble(n),
{
    if n < 10 {
        0x30 + n
    } else {
        0x57 + n
    }
}

/// Appends the JSON string encoding of `s`: quotes around the escaped
/// UTF-8 bytes.
fn push_json_string(out: &mut Vec<u8>, s: &str)
    ensures
        final(out)@ == old(out)@ + json_string_of(s@),
{
    out.push(0x22);
    let bytes = s.as_bytes();
    let n = bytes.len();
    let mut i: usize = 0;
    while i < n
        invariant
            n == bytes@.len(),
            i <= n,
            out@ == old(out)@ + seq![0x22u8] + escape_bytes(bytes@.take(i as int)),
        decreases n - i,
    {
        let ghost done = bytes@.take(i as int);
        let b = bytes[i];
        if b == 0x22 {
            out.push(0x5c);
            out.push(0x22);
        } else if b == 0x5c {
            out.push(0x5c);
            out.push(0x5c);
        } else if b == 0x08 {
            out.push(0x5c);
            out.push(0x62);
        } else if b == 0x09 {
            out.push(0x5c);
            out.push(0x74);
        } else if b == 0x0a {
            out.push(0x5c);
            out.push(0x6e);
        } else if b == 0x0c {
            out.push(0x5c);
            out.push(0x66);
        } else if b == 0x0d {
            out.push(0x5c);
            out.push(0x72);
        } else if b < 0x20 {
            out.push(0x5c);
            out.push(0x75);
            out.push(0x30);
            out.push(0x30);
            out.push(hex_digit(b / 16));
            out.push(hex_digit(b % 16));
        } else {
            out.push(b);
        }
        i += 1;
        proof {
            assert(bytes@.take(i as int).drop_last() =~= done);
            assert(bytes@.take(i as int).last() == b);
            assert(escape_bytes(bytes@.take(i as int)) == escape_bytes(done) + escape_byte(b));
            assert(out@ =~= old(out)@ + seq![0x22u8] + escape_bytes(bytes@.take(i as int)));
        }
    }
    proof {
        assert(bytes@.take(n as int) =~= bytes@);
    }
    out.push(0x22);
    proof {
        assert(final(out)@ =~= old(out)@ + json_string(s.spec_bytes()));
    }
}

/// Encodes a wire record as its JSON object, byte for byte.
pub fn encode_message(m: &OutgoingMessage) -> (r: Vec<u8>)
    ensures
        r@ == message_json(m@),
{
    let mut out: Vec<u8> = Vec::new();
    out.push(0x7b);
    push_json_string(&mut out, "amount");
    out.push(0x3a);
    push_dec_u64(&mut out, m.amount);
    out.push(0x2c);
    push_json_string(&mut out, "app_feature");
    out.push(0x3a);
    push_json_string(&mut out, m.app_feature.as_str());
    out.push(0x2c);
    push_json_string(&mut out, "shared_resource_id");
    out.push(0x3a);
    push_json_string(&mut out, m.shared_resource_id.as_str());
    out.push(0x2c);
    push_json_string(&mut out, "timestamp");
    out.push(0x3a);
    push_dec_u64(&mut out, m.timestamp);
    out.push(0x2c);
    push_json_string(&mut out, "usage_unit");
    out.push(0x3a);
    push_json_string(&mut out, m.usage_unit.wire_name());
    out.push(0x7d);
    proof {
        assert(out@ =~= message_json(m@));
    }
    out
}

} // verus!
