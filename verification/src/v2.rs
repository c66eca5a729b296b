//! The plain and the compressed form of an encoded histogram, as far as it takes
//! to tell which bytes can be handed to the decoder.
//!
//! The plain form is a header of 40 bytes and a payload. The header starts with a
//! cookie and the payload's length, big-endian words both. The payload is a list
//! of numbers: an even one stands for the count in one slot, an odd one for a run
//! of empty slots. The compressed form is another cookie, a length, and a zlib
//! stream of the plain form.

use flate2::read::ZlibDecoder;
use std::io::Read;
use vstd::prelude::*;
use vstd::slice::{slice_subrange, slice_to_vec};

verus! {

/// First word of the plain form.
pub const V2_COOKIE: u32 = 0x1c84_9313;

/// First word of the compressed form.
pub const V2_COMPRESSED_COOKIE: u32 = 0x1c84_9314;

/// Bytes before the payload.
pub const V2_HEADER: usize = 40;

/// The number that stands for a run of `2^63` empty slots, the longest there is.
pub const LONGEST_RUN: u64 = u64::MAX;

/// The first `len` bytes that `flate2::read::ZlibDecoder` reads out of the zlib
/// stream in `bytes`, or `None` where the stream is malformed or ends before.
pub uninterp spec fn inflated(bytes: Seq<u8>, len: nat) -> Option<Seq<u8>>;

/// The big-endian word at `at`.
pub open spec fn word(bytes: Seq<u8>, at: int) -> nat {
    (bytes[at] * 0x100_0000 + bytes[at + 1] * 0x1_0000 + bytes[at + 2] * 0x100 + bytes[at
        + 3]) as nat
}

/// The number at the head of `bytes`, of which `taken` bytes are already taken
/// off, and how many more bytes it takes. Each of its bytes holds seven bits,
/// lowest first, and is at least 128 where another follows; the ninth, always the
/// last, holds eight. `None` where the bytes end within the number.
pub open spec fn number(bytes: Seq<u8>, taken: nat) -> Option<(nat, nat)>
    decreases 8 - taken,
{
    if bytes.len() == 0 {
        None
    } else if bytes[0] < 128 || taken >= 8 {
        Some((bytes[0] as nat, 1))
    } else {
        match number(bytes.skip(1), taken + 1) {
            Some((rest, more)) => Some(((bytes[0] - 128 + 128 * rest) as nat, more + 1)),
            None => None,
        }
    }
}

/// How many slots a number of the payload stands for.
pub open spec fn slots_of(number: nat) -> nat {
    if number % 2 == 0 {
        1
    } else {
        number / 2 + 1
    }
}

/// How many slots the numbers of a payload stand for together, up to where its
/// bytes end within a number.
pub open spec fn slots_named(payload: Seq<u8>) -> nat
    decreases payload.len(),
{
    match number(payload, 0) {
        Some((n, len)) => {
            proof {
                lemma_number_fits(payload, 0);
            }
            slots_of(n) + slots_named(payload.skip(len as int))
        },
        None => 0,
    }
}

/// The numbers of a payload, up to where its bytes end within one.
pub open spec fn numbers(payload: Seq<u8>) -> Seq<nat>
    decreases payload.len(),
{
    match number(payload, 0) {
        Some((n, len)) => {
            proof {
                lemma_number_fits(payload, 0);
            }
            seq![n] + numbers(payload.skip(len as int))
        },
        None => Seq::empty(),
    }
}

/// `plain` is in the plain form and holds the whole payload that its header
/// announces; the slots that the payload names can be numbered on this machine, and
/// none of its numbers is the longest run.
pub open spec fn decodable(plain: Seq<u8>) -> bool {
    &&& plain.len() >= V2_HEADER
    &&& word(plain, 0) == V2_COOKIE
    &&& plain.len() >= V2_HEADER + word(plain, 4)
    &&& walkable(plain.subrange(V2_HEADER as int, V2_HEADER + word(plain, 4)))
}

/// The slots that the payload names can be numbered on this machine, and none of
/// its numbers is the longest run.
pub open spec fn walkable(payload: Seq<u8>) -> bool {
    &&& slots_named(payload) <= usize::MAX
    &&& !numbers(payload).contains(LONGEST_RUN as nat)
}

/// The zlib stream in the compressed form: as many bytes as are announced, or as
/// there are.
pub open spec fn stream_in(bytes: Seq<u8>) -> Seq<u8> {
    if bytes.len() - 8 <= word(bytes, 4) {
        bytes.skip(8)
    } else {
        bytes.subrange(8, 8 + word(bytes, 4) as int)
    }
}

/// The plain form of `bytes`: of the compressed form, the header and the payload
/// that it announces; anything else as it is.
pub open spec fn plain_form(bytes: Seq<u8>) -> Option<Seq<u8>> {
    if bytes.len() >= 8 && word(bytes, 0) == V2_COMPRESSED_COOKIE {
        match inflated(stream_in(bytes), V2_HEADER as nat) {
            Some(header) if V2_HEADER + word(header, 4) <= isize::MAX => inflated(
                stream_in(bytes),
                V2_HEADER as nat + word(header, 4),
            ),
            _ => None,
        }
    } else {
        Some(bytes)
    }
}

/// `flate2::read::ZlibDecoder`, read with `read_exact`: the first `len` bytes that
/// the zlib stream in `bytes` inflates to, or nothing where the stream is
/// malformed before them or inflates to fewer. What it inflates to is named, not
/// stated.
#[verifier::external_body]
fn inflate(bytes: &[u8], len: usize) -> (r: Option<Vec<u8>>)
    requires
        len <= isize::MAX,
    ensures
        r is Some <==> inflated(bytes@, len as nat) is Some,
        r matches Some(plain) ==> {
            &&& inflated(bytes@, len as nat) == Some(plain@)
            &&& plain@.len() == len
        },
{
    let mut plain = vec![0; len];
    ZlibDecoder::new(bytes).read_exact(&mut plain).ok().map(|_| plain)
}

/// The big-endian word at `at`.
fn read_word(bytes: &[u8], at: usize) -> (w: u32)
    requires
        at + 4 <= bytes@.len(),
    ensures
        w == word(bytes@, at as int),
{
    let high: u32 = bytes[at] as u32 * 0x100 + bytes[at + 1] as u32;
    let low: u32 = bytes[at + 2] as u32 * 0x100 + bytes[at + 3] as u32;
    high * 0x1_0000 + low
}

/// The plain form of `bytes`, `None` where they are in the compressed form and
/// cannot be inflated.
pub fn to_plain(bytes: &[u8]) -> (r: Option<Vec<u8>>)
    ensures
        r is Some <==> plain_form(bytes@) is Some,
        r matches Some(plain) ==> plain_form(bytes@) == Some(plain@),
{
    if bytes.len() < 8 || read_word(bytes, 0) != V2_COMPRESSED_COOKIE {
        return Some(slice_to_vec(bytes));
    }
    let announced: u32 = read_word(bytes, 4);
    let stream: &[u8] = if bytes.len() - 8 <= announced as usize {
        slice_subrange(bytes, 8, bytes.len())
    } else {
        slice_subrange(bytes, 8, 8 + announced as usize)
    };
    assert(stream@ =~= stream_in(bytes@));
    match inflate(stream, V2_HEADER) {
        None => None,
        Some(header) => {
            let payload: usize = read_word(header.as_slice(), 4) as usize;
            if payload <= isize::MAX as usize - V2_HEADER {
                inflate(stream, V2_HEADER + payload)
            } else {
                None
            }
        },
    }
}

/// Whether `plain` can be handed to the decoder.
pub fn is_decodable(plain: &[u8]) -> (b: bool)
    ensures
        b == decodable(plain@),
{
    if plain.len() < V2_HEADER || read_word(plain, 0) != V2_COOKIE {
        return false;
    }
    let announced: u32 = read_word(plain, 4);
    if plain.len() - V2_HEADER < announced as usize {
        return false;
    }
    is_walkable(slice_subrange(plain, V2_HEADER, V2_HEADER + announced as usize))
}

/// Whether the slots that the payload names can be numbered on this machine, and
/// none of its numbers is the longest run.
fn is_walkable(payload: &[u8]) -> (b: bool)
    ensures
        b == walkable(payload@),
{
    let mut at: usize = 0;
    let mut slots: usize = 0;
    let ghost longest = LONGEST_RUN as nat;
    assert(payload@.skip(0) =~= payload@);
    while at < payload.len()
        invariant
            at <= payload@.len(),
            longest == LONGEST_RUN,
            slots + slots_named(payload@.skip(at as int)) == slots_named(payload@),
            numbers(payload@).contains(longest) == numbers(payload@.skip(at as int)).contains(
                longest,
            ),
        decreases payload@.len() - at,
    {
        let ghost here = payload@.skip(at as int);
        match read_number(payload, at, 0) {
            None => {
                return true;
            },
            Some((n, next)) => {
                let ghost rest = payload@.skip(next as int);
                let more: u64 = if n % 2 == 0 {
                    1
                } else {
                    n / 2 + 1
                };
                proof {
                    assert(here.skip(next - at) =~= rest);
                    lemma_contains_first(n as nat, numbers(rest), longest);
                }
                if n == LONGEST_RUN || more > (usize::MAX - slots) as u64 {
                    return false;
                }
                slots = slots + more as usize;
                at = next;
            },
        }
    }
    true
}

proof fn lemma_contains_first(first: nat, rest: Seq<nat>, n: nat)
    ensures
        (seq![first] + rest).contains(n) == (first == n || rest.contains(n)),
{
    let all = seq![first] + rest;
    assert(all[0] == first);
    if rest.contains(n) {
        let i = choose|i: int| 0 <= i < rest.len() && rest[i] == n;
        assert(all[i + 1] == n);
    }
    if all.contains(n) && first != n {
        let i = choose|i: int| 0 <= i < all.len() && all[i] == n;
        assert(rest[i - 1] == n);
    }
}

/// The number at `at`, of which `taken` bytes come before, and where the next one
/// starts.
fn read_number(bytes: &[u8], at: usize, taken: u8) -> (r: Option<(u64, usize)>)
    requires
        at <= bytes@.len(),
        taken <= 8,
    ensures
        match number(bytes@.skip(at as int), taken as nat) {
            Some((n, len)) => {
                &&& n < bound(taken as nat)
                &&& 1 <= len <= bytes@.len() - at
                &&& r matches Some((value, next)) && value == n && next == at + len
            },
            None => r is None,
        },
    decreases 8 - taken,
{
    proof {
        lemma_bound(taken as nat);
    }
    if at == bytes.len() {
        return None;
    }
    let first: u8 = bytes[at];
    assert(first == bytes@.skip(at as int)[0]);
    if first < 128 || taken == 8 {
        return Some((first as u64, at + 1));
    }
    assert(bytes@.skip(at as int).skip(1) =~= bytes@.skip(at + 1));
    match read_number(bytes, at + 1, taken + 1) {
        None => None,
        Some((rest, next)) => Some(((first - 128) as u64 + 128 * rest, next)),
    }
}

/// One more than the largest number that can follow `taken` bytes.
spec fn bound(taken: nat) -> nat
    decreases 8 - taken,
{
    if taken >= 8 {
        256
    } else {
        128 * bound(taken + 1)
    }
}

proof fn lemma_bound(taken: nat)
    requires
        taken <= 8,
    ensures
        256 <= bound(taken) <= 0x1_0000_0000_0000_0000,
{
    reveal_with_fuel(bound, 10);
    assert(bound(8) == 256 && bound(7) == 128 * bound(8) && bound(6) == 128 * bound(7));
    assert(bound(5) == 128 * bound(6) && bound(4) == 128 * bound(5) && bound(3) == 128 * bound(4));
    assert(bound(2) == 128 * bound(3) && bound(1) == 128 * bound(2) && bound(0) == 128 * bound(1));
}

/// A number takes at least one byte and no more than there are.
pub proof fn lemma_number_fits(bytes: Seq<u8>, taken: nat)
    ensures
        number(bytes, taken) matches Some((_, len)) ==> 1 <= len <= bytes.len(),
    decreases 8 - taken,
{
    if bytes.len() > 0 && bytes[0] >= 128 && taken < 8 {
        lemma_number_fits(bytes.skip(1), taken + 1);
    }
}

/// Which bytes can be handed to the decoder: the cookie of the plain form, a header of
/// forty bytes, and behind it at least as many bytes as the second word announces, of
/// which so many can be walked.
pub proof fn law_a_whole_payload_can_be_decoded(plain: Seq<u8>)
    ensures
        decodable(plain) <==> {
            let announced = plain[4] * 0x100_0000 + plain[5] * 0x1_0000 + plain[6] * 0x100
                + plain[7];
            &&& plain.len() >= 40
            &&& plain[0] == 0x1c && plain[1] == 0x84 && plain[2] == 0x93 && plain[3] == 0x13
            &&& plain.len() >= 40 + announced
            &&& walkable(plain.subrange(40, 40 + announced))
        },
{
}

/// The sum of the slots that the numbers stand for.
pub open spec fn slots_over(all: Seq<nat>) -> nat
    decreases all.len(),
{
    if all.len() == 0 {
        0
    } else {
        slots_of(all.first()) + slots_over(all.drop_first())
    }
}

/// A payload can be walked if its numbers stand for no more slots than the machine can
/// number and none of them is the largest there is. An even number stands for one
/// slot, an odd one for half of its successor.
pub proof fn law_a_payload_is_walked_number_by_number(payload: Seq<u8>, n: nat)
    ensures
        walkable(payload) <==> slots_over(numbers(payload)) <= usize::MAX && !numbers(
            payload,
        ).contains(0xffff_ffff_ffff_ffff),
        n % 2 == 0 ==> slots_of(n) == 1,
        n % 2 == 1 ==> 2 * slots_of(n) == n + 1,
{
    lemma_slots_over(payload);
}

proof fn lemma_slots_over(payload: Seq<u8>)
    ensures
        slots_named(payload) == slots_over(numbers(payload)),
    decreases payload.len(),
{
    if let Some((n, len)) = number(payload, 0) {
        lemma_number_fits(payload, 0);
        lemma_slots_over(payload.skip(len as int));
        let all = numbers(payload);
        assert(all.drop_first() =~= numbers(payload.skip(len as int)));
    }
}

/// A number is written seven bits to a byte, the lowest first: a byte below 128 ends
/// it, any other stands for its excess over 128 and is followed by the rest, 128 times
/// as much worth. The ninth byte ends it in any case, and counts whole.
pub proof fn law_numbers_are_written_seven_bits_to_a_byte(first: u8, rest: Seq<u8>, taken: nat)
    ensures
        number(Seq::empty(), taken) is None,
        first < 128 || taken >= 8 ==> number(seq![first] + rest, taken) == Some((first as nat, 1nat)),
        first >= 128 && taken < 8 ==> {
            &&& number(rest, taken + 1) is None ==> number(seq![first] + rest, taken) is None
            &&& number(rest, taken + 1) matches Some((n, len)) ==> number(
                seq![first] + rest,
                taken,
            ) == Some(((first - 128 + 128 * n) as nat, len + 1))
        },
{
    assert((seq![first] + rest).skip(1) =~= rest);
}

} // verus!
