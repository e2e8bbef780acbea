//! How the simulated devices are numbered: their identifiers, their channels'
//! identifiers and their local ports, and the name of the stream they serve.
use vstd::prelude::*;
use crate::num::{dec, dec_padded, digits_value, lemma_dec_value, push_dec_padded};
use crate::text::{chars_of, find_from, find_from_exec, lemma_find_from, string_of};

verus! {

/// What a device's number is raised by to number its channel.
pub const CHANNEL_OFFSET: u64 = 1000000;

/// The digits after the prefix in every identifier, at least.
pub const ID_DIGITS: usize = 10;

/// The identifier of device `i` (counting from 0): the prefix, then `i + 1`
/// in at least ten zero-padded digits.
pub open spec fn device_id_spec(prefix: Seq<char>, i: nat) -> Seq<char> {
    prefix + dec_padded(i + 1, ID_DIGITS as nat)
}

/// The identifier of the channel of device `i`: the prefix, then
/// `i + 1 + 1000000` in at least ten zero-padded digits.
pub open spec fn channel_id_spec(prefix: Seq<char>, i: nat) -> Seq<char> {
    prefix + dec_padded(i + 1 + CHANNEL_OFFSET as nat, ID_DIGITS as nat)
}

/// The local port of device `i`: the base port plus `i`, in 16 bits.
pub open spec fn device_port_spec(base_port: u16, i: nat) -> u16 {
    ((base_port + i % 65536) % 65536) as u16
}

/// The identifier of device `i`.
pub fn device_id(prefix: &str, i: u64) -> (r: String)
    requires
        i < u64::MAX,
    ensures
        r@ == device_id_spec(prefix@, i as nat),
{
    let mut s = prefix.to_owned();
    push_dec_padded(&mut s, i + 1, ID_DIGITS);
    s
}

/// The identifier of the channel of device `i`.
pub fn channel_id(prefix: &str, i: u64) -> (r: String)
    requires
        i + 1 + CHANNEL_OFFSET <= u64::MAX,
    ensures
        r@ == channel_id_spec(prefix@, i as nat),
{
    let mut s = prefix.to_owned();
    push_dec_padded(&mut s, i + 1 + CHANNEL_OFFSET, ID_DIGITS);
    s
}

/// The local port of device `i`, wrapping past 65535 as an unchecked `u16`
/// addition does.
pub fn device_port(base_port: u16, i: u64) -> (r: u16)
    ensures
        r == device_port_spec(base_port, i as nat),
{
    let off: u16 = (i % 65536) as u16;
    base_port.wrapping_add(off)
}

/// `s.split_once('/')`: the text before the first slash and the text after it.
pub open spec fn split_stream_spec(s: Seq<char>) -> Option<(Seq<char>, Seq<char>)> {
    match find_from(s, seq!['/'], 0) {
        Some(i) => Some((s.subrange(0, i), s.subrange(i + 1, s.len() as int))),
        None => None,
    }
}

/// Splits `app/stream` into the application and the stream name, at the
/// first slash; `None` when there is no slash.
pub fn split_fixed_stream(s: &str) -> (r: Option<(String, String)>)
    ensures
        match split_stream_spec(s@) {
            Some((a, b)) => r matches Some((x, y)) && x@ == a && y@ == b,
            None => r is None,
        },
{
    let c = chars_of(s);
    let slash: Vec<char> = vec!['/'];
    assert(slash@ =~= seq!['/']);
    let found = find_from_exec(c.as_slice(), slash.as_slice(), 0);
    proof {
        lemma_find_from(c@, seq!['/'], 0);
    }
    match found {
        Some(i) => {
            assert(find_from(c@, seq!['/'], 0) == Some(i as int));
            let n = c.len();
            assert(i + 1 <= n);
            let a = string_of(c.as_slice(), 0, i);
            let b = string_of(c.as_slice(), i + 1, n);
            Some((a, b))
        },
        None => None,
    }
}

// ---------------------------------------------------------------------------
// Laws
// ---------------------------------------------------------------------------

/// Ten to the power `k`.
pub open spec fn pow10(k: nat) -> nat
    decreases k,
{
    if k == 0 {
        1
    } else {
        10 * pow10((k - 1) as nat)
    }
}

/// A number below `10^k` has at most `k` digits.
pub proof fn lemma_dec_len(n: nat, k: nat)
    requires
        k >= 1,
        n < pow10(k),
    ensures
        dec(n).len() <= k,
    decreases n,
{
    if n >= 10 {
        assert(k >= 2) by {
            if k == 1 {
                assert(pow10(0) == 1);
            }
        }
        lemma_dec_len(n / 10, (k - 1) as nat);
    }
}

/// Leading zeros do not change what digits read as.
proof fn lemma_leading_zeros_value(z: Seq<char>, d: Seq<char>)
    requires
        forall|i: int| 0 <= i < z.len() ==> #[trigger] z[i] == '0',
    ensures
        digits_value(z + d) == digits_value(d),
    decreases d.len() + z.len(),
{
    if d.len() > 0 {
        lemma_leading_zeros_value(z, d.drop_last());
        assert((z + d).drop_last() =~= z + d.drop_last());
        assert((z + d).last() == d.last());
    } else if z.len() > 0 {
        lemma_leading_zeros_value(z.drop_last(), d);
        assert(z + d =~= z);
        assert(z.drop_last() + d =~= z.drop_last());
        assert(z.last() == '0');
    } else {
        assert(z + d =~= d);
    }
}

/// A padded numeral reads back as its number.
proof fn lemma_dec_padded_value(n: nat, w: nat)
    ensures
        digits_value(dec_padded(n, w)) == n,
{
    lemma_dec_value(n);
    let d = dec(n);
    if d.len() < w {
        let z = Seq::new((w - d.len()) as nat, |i: int| '0');
        lemma_leading_zeros_value(z, d);
    }
}

/// Different devices have different identifiers, and so do their channels.
pub proof fn law_device_ids_distinct(prefix: Seq<char>, i: nat, j: nat)
    requires
        i != j,
    ensures
        device_id_spec(prefix, i) != device_id_spec(prefix, j),
        channel_id_spec(prefix, i) != channel_id_spec(prefix, j),
{
    let w = ID_DIGITS as nat;
    let n = prefix.len() as int;
    lemma_dec_padded_value(i + 1, w);
    lemma_dec_padded_value(j + 1, w);
    lemma_dec_padded_value(i + 1 + CHANNEL_OFFSET as nat, w);
    lemma_dec_padded_value(j + 1 + CHANNEL_OFFSET as nat, w);
    let di = device_id_spec(prefix, i);
    let dj = device_id_spec(prefix, j);
    if di == dj {
        assert(di.subrange(n, di.len() as int) =~= dec_padded(i + 1, w));
        assert(dj.subrange(n, dj.len() as int) =~= dec_padded(j + 1, w));
    }
    let ci = channel_id_spec(prefix, i);
    let cj = channel_id_spec(prefix, j);
    if ci == cj {
        assert(ci.subrange(n, ci.len() as int) =~= dec_padded(i + 1 + CHANNEL_OFFSET as nat, w));
        assert(cj.subrange(n, cj.len() as int) =~= dec_padded(j + 1 + CHANNEL_OFFSET as nat, w));
    }
}

/// Below ten billion devices, an identifier is the prefix and exactly ten
/// digits: twenty digits for a ten-digit prefix such as `3402000000`.
pub proof fn law_device_id_length(prefix: Seq<char>, i: nat)
    requires
        i + 1 < pow10(10),
    ensures
        device_id_spec(prefix, i).len() == prefix.len() + 10,
{
    lemma_dec_len(i + 1, 10);
}

/// Each device listens one port above the previous one, and the devices
/// of a run of at most 65536 all listen on different ports.
pub proof fn law_device_ports(base_port: u16, i: nat, j: nat)
    ensures
        device_port_spec(base_port, i + 1) == (device_port_spec(base_port, i) + 1) % 65536,
        i != j && i < 65536 && j < 65536 ==> device_port_spec(base_port, i) != device_port_spec(
            base_port,
            j,
        ),
{
}

} // verus!
