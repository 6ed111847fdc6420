//! Domains, handles and the signal protocol of periodic actions.
use vstd::prelude::*;

verus! {

/// Tag byte of handles minted by the real-time domain.
pub const REALTIME_TAG: u8 = 0;

/// Tag byte of handles minted by the external-tick domain.
pub const BYOND_TAG: u8 = 189;

/// Text a periodic action returns to ask for another run.
pub const TIMER_RESCHEDULE: &'static str = "TIMER_RESCHEDULE";

/// Text a periodic action returns to stop itself.
pub const TIMER_CANCEL: &'static str = "TIMER_CANCEL";

/// The time domain a timer lives in.
#[derive(Clone, Copy, Debug, PartialEq, Eq, Structural)]
pub enum TimerType {
    RealTime,
    ByondTick,
}

impl TimerType {
    pub open spec fn tag(self) -> u8 {
        match self {
            TimerType::RealTime => REALTIME_TAG,
            TimerType::ByondTick => BYOND_TAG,
        }
    }

    /// The tag byte that handles of this domain carry.
    pub fn tag_byte(&self) -> (r: u8)
        ensures
            r == self.tag(),
    {
        match self {
            TimerType::RealTime => REALTIME_TAG,
            TimerType::ByondTick => BYOND_TAG,
        }
    }
}

/// What a periodic timer does after one of its runs.
#[derive(Clone, Copy, Debug, PartialEq, Eq, Structural)]
pub enum TimerReturn {
    Reschedule,
    Cancel,
}

/// The tag byte of a handle: its most significant byte.
pub open spec fn tag_of(id: u128) -> u8 {
    (id >> 120u128) as u8
}

/// The domain a handle is routed to: the external-tick domain for its tag,
/// the real-time domain for every other value.
pub open spec fn domain_of(id: u128) -> TimerType {
    if tag_of(id) == BYOND_TAG {
        TimerType::ByondTick
    } else {
        TimerType::RealTime
    }
}

/// Random bits with the top byte replaced by `tag`.
pub open spec fn with_tag(bits: u128, tag: u8) -> u128 {
    (bits & 0x00ff_ffff_ffff_ffff_ffff_ffff_ffff_ffffu128) | ((tag as u128) << 120u128)
}

/// The handle minted for `utype` from the random bits `bits`: the domain's tag
/// byte followed by the low fifteen bytes of `bits`.
pub open spec fn minted(utype: TimerType, bits: u128) -> u128 {
    with_tag(bits, utype.tag())
}

/// The `j`-th candidate handle for `utype` drawn from `bits`; the first one is
/// the draw itself.
pub open spec fn probe(utype: TimerType, bits: u128, j: u128) -> u128 {
    minted(utype, bits ^ j)
}

/// Reads which domain a handle belongs to.
pub trait TimerTypable {
    spec fn spec_timertype(&self) -> TimerType;

    fn timertype(&self) -> (r: TimerType)
        ensures
            r == self.spec_timertype(),
    ;
}

impl TimerTypable for u128 {
    open spec fn spec_timertype(&self) -> TimerType {
        domain_of(*self)
    }

    fn timertype(&self) -> (r: TimerType) {
        let tag: u8 = (*self >> 120u128) as u8;
        if tag == BYOND_TAG {
            TimerType::ByondTick
        } else {
            TimerType::RealTime
        }
    }
}

proof fn lemma_minted_tag(bits: u128, tag: u8)
    ensures
        ((bits & 0x00ff_ffff_ffff_ffff_ffff_ffff_ffff_ffffu128) | ((tag as u128) << 120u128)) >> 120u128 == tag as u128,
        ((bits & 0x00ff_ffff_ffff_ffff_ffff_ffff_ffff_ffffu128) | ((tag as u128) << 120u128))
            & 0x00ff_ffff_ffff_ffff_ffff_ffff_ffff_ffffu128 == bits & 0x00ff_ffff_ffff_ffff_ffff_ffff_ffff_ffffu128,
{
    assert(((bits & 0x00ff_ffff_ffff_ffff_ffff_ffff_ffff_ffffu128) | ((tag as u128) << 120u128)) >> 120u128
        == tag as u128) by (bit_vector);
    assert(((bits & 0x00ff_ffff_ffff_ffff_ffff_ffff_ffff_ffffu128) | ((tag as u128) << 120u128))
        & 0x00ff_ffff_ffff_ffff_ffff_ffff_ffff_ffffu128 == bits & 0x00ff_ffff_ffff_ffff_ffff_ffff_ffff_ffffu128)
        by (bit_vector);
}

proof fn lemma_xor_low_distinct(bits: u128, j: u128, k: u128)
    requires
        j < 0x0100_0000_0000_0000_0000_0000_0000_0000u128,
        k < 0x0100_0000_0000_0000_0000_0000_0000_0000u128,
        j != k,
    ensures
        (bits ^ j) & 0x00ff_ffff_ffff_ffff_ffff_ffff_ffff_ffffu128 != (bits ^ k) & 0x00ff_ffff_ffff_ffff_ffff_ffff_ffff_ffffu128,
{
    assert((bits ^ j) & 0x00ff_ffff_ffff_ffff_ffff_ffff_ffff_ffffu128 != (bits ^ k)
        & 0x00ff_ffff_ffff_ffff_ffff_ffff_ffff_ffffu128) by (bit_vector)
        requires
            j < 0x0100_0000_0000_0000_0000_0000_0000_0000u128,
            k < 0x0100_0000_0000_0000_0000_0000_0000_0000u128,
            j != k;
}

/// Distinct candidates drawn from the same bits are distinct handles.
pub proof fn lemma_probes_distinct(utype: TimerType, bits: u128, j: u128, k: u128)
    requires
        j < 0x0100_0000_0000_0000_0000_0000_0000_0000u128,
        k < 0x0100_0000_0000_0000_0000_0000_0000_0000u128,
        j != k,
    ensures
        probe(utype, bits, j) != probe(utype, bits, k),
{
    lemma_minted_tag(bits ^ j, utype.tag());
    lemma_minted_tag(bits ^ k, utype.tag());
    lemma_xor_low_distinct(bits, j, k);
}

/// A minted handle carries its domain's tag, so it is routed back to that domain.
pub proof fn lemma_minted_domain(utype: TimerType, bits: u128)
    ensures
        tag_of(minted(utype, bits)) == utype.tag(),
        domain_of(minted(utype, bits)) == utype,
        minted(utype, bits) & 0x00ff_ffff_ffff_ffff_ffff_ffff_ffff_ffffu128 == bits
            & 0x00ff_ffff_ffff_ffff_ffff_ffff_ffff_ffffu128,
{
    lemma_minted_tag(bits, utype.tag());
}

/// Handles minted by different domains are never equal, whatever bits they were made of.
pub proof fn lemma_domains_disjoint(a: TimerType, b: TimerType, bits_a: u128, bits_b: u128)
    requires
        a != b,
    ensures
        minted(a, bits_a) != minted(b, bits_b),
{
    lemma_minted_domain(a, bits_a);
    lemma_minted_domain(b, bits_b);
}

/// Builds the handle of `utype` from random bits: the tag byte, then the low
/// fifteen bytes of `bits` as they are.
pub fn tagged_id(utype: TimerType, bits: u128) -> (r: u128)
    ensures
        r == minted(utype, bits),
        tag_of(r) == utype.tag(),
        domain_of(r) == utype,
        r & 0x00ff_ffff_ffff_ffff_ffff_ffff_ffff_ffffu128 == bits & 0x00ff_ffff_ffff_ffff_ffff_ffff_ffff_ffffu128,
{
    let tag = utype.tag_byte();
    proof {
        lemma_minted_domain(utype, bits);
    }
    (bits & 0x00ff_ffff_ffff_ffff_ffff_ffff_ffff_ffffu128) | ((tag as u128) << 120u128)
}

/// The signal that a periodic action's returned text stands for.
pub open spec fn signal_of(ret: Option<Seq<char>>) -> TimerReturn {
    if ret == Some(TIMER_CANCEL@) {
        TimerReturn::Cancel
    } else {
        TimerReturn::Reschedule
    }
}

/// The text a returned value holds, if any.
pub open spec fn text_of(ret: Option<String>) -> Option<Seq<char>> {
    match ret {
        Some(s) => Some(s@),
        None => None,
    }
}

/// Reads the signal a periodic action returned. Only the exact cancel text stops
/// the timer; the reschedule text, any other text and no text all continue it.
pub fn should_reschedule(str_in: Option<String>) -> (r: TimerReturn)
    ensures
        r == signal_of(text_of(str_in)),
{
    match str_in {
        Some(s) => {
            let cancel_text = TIMER_CANCEL.to_owned();
            if s == cancel_text {
                TimerReturn::Cancel
            } else {
                TimerReturn::Reschedule
            }
        },
        None => TimerReturn::Reschedule,
    }
}


/// Relies on rand::random: sixteen random bytes, read as one big-endian number.
/// Nothing is promised of their value.
#[verifier::external_body]
pub(crate) fn random_bits() -> (r: u128) {
    u128::from_be_bytes(rand::random::<[u8; 16]>())
}

/// Mints a handle for `utype` from random bits: the domain's tag byte, then
/// fifteen random bytes.
pub fn get_uuid(utype: TimerType) -> (r: u128)
    ensures
        exists|bits: u128| r == minted(utype, bits),
        tag_of(r) == utype.tag(),
        domain_of(r) == utype,
{
    let bits = random_bits();
    tagged_id(utype, bits)
}

/// The lower-case hexadecimal digits.
pub open spec fn hex_digits() -> Seq<char> {
    seq!['0', '1', '2', '3', '4', '5', '6', '7', '8', '9', 'a', 'b', 'c', 'd', 'e', 'f']
}

/// Whether position `i` of the hyphenated form holds a hyphen.
pub open spec fn is_hyphen_at(i: int) -> bool {
    i == 8 || i == 13 || i == 18 || i == 23
}

/// Which of the 32 hex digits stands at position `i` of the hyphenated form.
pub open spec fn digit_index(i: int) -> int {
    if i < 8 {
        i
    } else if i < 13 {
        i - 1
    } else if i < 18 {
        i - 2
    } else if i < 23 {
        i - 3
    } else {
        i - 4
    }
}

/// The nibble of `id` shown as hex digit `j`, most significant first.
pub open spec fn nibble(id: u128, j: int) -> int {
    ((id >> ((4 * (31 - j)) as u128)) & 15u128) as int
}

/// The hyphenated lower-case text of a handle, as in
/// `bd1a2b3c-4d5e-8f60-8a1b-2c3d4e5f6071`.
pub open spec fn handle_text(id: u128) -> Seq<char> {
    Seq::new(
        36,
        |i: int|
            if is_hyphen_at(i) {
                '-'
            } else {
                hex_digits()[nibble(id, digit_index(i))]
            },
    )
}

/// What uuid's parser makes of a text: the bits of the UUID, or nothing.
pub uninterp spec fn parsed_uuid(s: Seq<char>) -> Option<u128>;

/// Relies on uuid's `Display` for `Uuid`: the hyphenated lower-case form.
#[verifier::external_body]
pub(crate) fn handle_string(id: u128) -> (r: String)
    ensures
        r@ == handle_text(id),
{
    uuid::Uuid::from_u128(id).to_string()
}

/// Relies on uuid::Uuid::parse_str, which reads the simple, hyphenated, braced
/// and URN forms; the hyphenated form of a UUID reads back as that UUID.
#[verifier::external_body]
pub(crate) fn parse_handle(s: &str) -> (r: Option<u128>)
    ensures
        r == parsed_uuid(s@),
        forall|id: u128| #[trigger] handle_text(id) == s@ ==> r == Some(id),
{
    match uuid::Uuid::parse_str(s) {
        Ok(u) => Some(u.as_u128()),
        Err(_) => None,
    }
}

} // verus!
