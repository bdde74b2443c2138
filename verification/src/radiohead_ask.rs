//! Frames of the RadioHead ASK packet format, and the order in which a transmitter puts
//! one on a single output pin.
//!
//! A frame is a training preamble, a start symbol pair, and then the length, the header,
//! the payload and a frame check, each byte sent as two balanced six-bit symbols.

use vstd::prelude::*;

verus! {

/// Bit slots per second on the wire.
pub const BIT_RATE_HZ: u32 = 2000;

/// Symbols that a transmitter can queue.
pub const BUFFER_LEN: usize = 128;

/// Bytes that the length byte counts besides the payload: itself, the four header bytes
/// and the two bytes of the frame check.
pub const FRAME_OVERHEAD: usize = 7;

/// Longest payload whose frame fits the symbol buffer.
pub const MAX_PAYLOAD: usize = 53;

/// Bits sent for each symbol, least significant first.
pub const BITS_PER_SYMBOL: usize = 6;

/// Value of the frame check before any byte has entered it.
pub const FCS_SEED: u16 = 0xffff;

/// Value of the frame check after a whole frame, its closing two bytes included, has
/// entered it. A receiver accepts a frame that leaves this value.
pub const FCS_RESIDUE: u16 = 0xf0b8;

/// The six-bit symbol of each four-bit value.
pub const SYMBOLS: [u8; 16] = [
    0xd, 0xe, 0x13, 0x15, 0x16, 0x19, 0x1a, 0x1c, 0x23, 0x25, 0x26, 0x29, 0x2a, 0x2c, 0x32, 0x34,
];

/// Why a transmission was abandoned.
#[derive(Debug, Clone, Copy, PartialEq, Eq, Structural)]
pub enum Error {
    /// The output pin could not be driven.
    Port,
}

/// One step of the CCITT frame check register, taking in the lowest bit.
pub open spec fn fcs_shift(fcs: u16) -> u16 {
    if fcs & 1 == 1 {
        (fcs >> 1) ^ 0x8408
    } else {
        fcs >> 1
    }
}

/// The frame check after a byte has entered it: the byte is added to the low half of the
/// register, which then makes eight steps.
pub open spec fn fcs_update(fcs: u16, data: u8) -> u16 {
    fcs_shift(
        fcs_shift(
            fcs_shift(fcs_shift(fcs_shift(fcs_shift(fcs_shift(fcs_shift(fcs ^ (data as u16))))))),
        ),
    )
}

/// The frame check after all of `bytes` have entered it, in order, starting from `fcs`.
pub open spec fn fcs_fold(fcs: u16, bytes: Seq<u8>) -> u16
    decreases bytes.len(),
{
    if bytes.len() == 0 {
        fcs
    } else {
        fcs_update(fcs_fold(fcs, bytes.drop_last()), bytes.last())
    }
}

/// The frame check update without a table or a loop.
spec fn fcs_fast(fcs: u16, data: u8) -> u16 {
    let x: u8 = data ^ (fcs as u8);
    let y: u8 = x ^ (x << 4);
    (((y as u16) << 8) | (fcs >> 8)) ^ ((y >> 4) as u16) ^ ((y as u16) << 3)
}

/// The table-free form of the frame check update agrees with the register's eight steps.
proof fn lemma_fcs_update(fcs: u16, data: u8)
    ensures
        fcs_fast(fcs, data) == fcs_update(fcs, data),
{
    assert(fcs_fast(fcs, data) == fcs_update(fcs, data)) by (bit_vector);
}

/// The two symbols that carry a byte: the one of its high half, then the one of its low half.
pub open spec fn symbol_pair(byte: u8) -> Seq<u8> {
    seq![SYMBOLS[(byte >> 4) as int], SYMBOLS[(byte & 0xf) as int]]
}

/// The symbols that carry `bytes`, in order.
pub open spec fn encoded(bytes: Seq<u8>) -> Seq<u8>
    decreases bytes.len(),
{
    if bytes.len() == 0 {
        Seq::empty()
    } else {
        encoded(bytes.drop_last()) + symbol_pair(bytes.last())
    }
}

/// The training pattern and the start symbols that open every frame. They are sent as
/// they stand, not encoded.
pub open spec fn preamble() -> Seq<u8> {
    seq![0x2a, 0x2a, 0x2a, 0x2a, 0x2a, 0x2a, 0x38, 0x2c]
}

/// The length byte and the four header bytes of a frame with a payload of `len` bytes.
pub open spec fn header(from: u8, to: u8, id: u8, header_flags: u8, len: nat) -> Seq<u8> {
    seq![(len + FRAME_OVERHEAD) as u8, from, to, id, header_flags]
}

/// The two bytes that close a frame: the complement of the frame check of the bytes
/// before them, low byte first.
pub open spec fn frame_check(covered: Seq<u8>) -> Seq<u8> {
    let crc = !fcs_fold(FCS_SEED, covered);
    seq![(crc & 0xff) as u8, (crc >> 8) as u8]
}

/// The bytes of a frame that the frame check covers: length, header and payload.
pub open spec fn covered_bytes(from: u8, to: u8, id: u8, header_flags: u8, content: Seq<u8>) -> Seq<
    u8,
> {
    header(from, to, id, header_flags, content.len()) + content
}

/// All the symbols of a frame, in the order in which they go on the wire.
pub open spec fn frame_symbols(
    from: u8,
    to: u8,
    id: u8,
    header_flags: u8,
    content: Seq<u8>,
) -> Seq<u8> {
    let covered = covered_bytes(from, to, id, header_flags, content);
    preamble() + encoded(covered + frame_check(covered))
}

/// Whether bit `i` of a symbol is set.
pub open spec fn symbol_bit(symbol: u8, i: int) -> bool {
    symbol & (1u8 << (i as u8)) != 0
}

/// The level of bit slot `k` of a transmission of `symbols`: each symbol takes six slots,
/// its least significant bit first.
pub open spec fn level(symbols: Seq<u8>, k: int) -> bool {
    symbol_bit(symbols[k / (BITS_PER_SYMBOL as int)], k % (BITS_PER_SYMBOL as int))
}

/// Where a transmitter stands in putting its queued symbols on the wire.
#[derive(Debug, Clone, Copy, PartialEq, Eq, Structural)]
pub enum Phase {
    /// The bit timer has to be started.
    Starting,
    /// The pin has to take the level of the current bit slot.
    Driving,
    /// The current bit slot has to run out.
    Waiting,
    /// All slots are sent; the pin has to go back to low.
    Parking,
    /// Nothing is left to do.
    Done,
    /// The pin refused a level; the frame was abandoned.
    Faulted,
}

/// What the hardware reports back to a transmitter.
#[derive(Debug, Clone, Copy, PartialEq, Eq, Structural)]
pub enum Event {
    /// The bit timer runs at the rate asked for.
    TimerStarted,
    /// The pin took the level asked for.
    PinSet,
    /// The pin could not be driven.
    PinFault,
    /// A period of the bit timer has ended.
    PeriodElapsed,
}

/// What a transmitter asks of the hardware next.
#[derive(Debug, Clone, Copy, PartialEq, Eq)]
pub enum Action {
    /// Start the periodic bit timer.
    StartTimer { hz: u32 },
    /// Drive the output pin high or low.
    SetPin { high: bool },
    /// Block until the running period of the bit timer ends.
    WaitPeriod,
    /// The transmission is over, with this result.
    Finish(Result<(), Error>),
}

/// The state of a transmitter: the queued symbols and the progress on the wire.
pub struct Transmission {
    pub symbols: Seq<u8>,
    pub phase: Phase,
    /// Bit slots already sent.
    pub position: nat,
}

impl Transmission {
    /// Number of bit slots that the queued symbols take.
    pub open spec fn slots(self) -> nat {
        self.symbols.len() * BITS_PER_SYMBOL as nat
    }

    /// What the transmitter asks of the hardware in this state.
    pub open spec fn pending(self) -> Action {
        match self.phase {
            Phase::Starting => Action::StartTimer { hz: BIT_RATE_HZ },
            Phase::Driving => Action::SetPin { high: level(self.symbols, self.position as int) },
            Phase::Waiting => Action::WaitPeriod,
            Phase::Parking => Action::SetPin { high: false },
            Phase::Done => Action::Finish(Ok(())),
            Phase::Faulted => Action::Finish(Err(Error::Port)),
        }
    }

    /// The state after the hardware has reported `event`. An event that does not answer
    /// the pending action changes nothing.
    pub open spec fn after(self, event: Event) -> Transmission {
        match (self.phase, event) {
            (Phase::Starting, Event::TimerStarted) => if self.slots() > 0 {
                Transmission { phase: Phase::Driving, position: 0, ..self }
            } else {
                Transmission { phase: Phase::Parking, position: 0, ..self }
            },
            (Phase::Driving, Event::PinSet) => Transmission { phase: Phase::Waiting, ..self },
            (Phase::Driving, Event::PinFault) => Transmission { phase: Phase::Faulted, ..self },
            (Phase::Waiting, Event::PeriodElapsed) => if self.position + 1 < self.slots() {
                Transmission { phase: Phase::Driving, position: self.position + 1, ..self }
            } else {
                Transmission { phase: Phase::Parking, position: self.position + 1, ..self }
            },
            (Phase::Parking, Event::PinSet) => Transmission { phase: Phase::Done, ..self },
            (Phase::Parking, Event::PinFault) => Transmission { phase: Phase::Faulted, ..self },
            _ => self,
        }
    }

    /// The state after the hardware has reported each of `events` in turn.
    pub open spec fn after_all(self, events: Seq<Event>) -> Transmission
        decreases events.len(),
    {
        if events.len() == 0 {
            self
        } else {
            self.after_all(events.drop_last()).after(events.last())
        }
    }
}

/// Encoding a sequence of bytes followed by another is encoding each and joining the symbols.
proof fn lemma_encoded_concat(a: Seq<u8>, b: Seq<u8>)
    ensures
        encoded(a + b) == encoded(a) + encoded(b),
    decreases b.len(),
{
    if b.len() == 0 {
        assert(a + b =~= a);
        assert(encoded(a) + encoded(b) =~= encoded(a));
    } else {
        assert((a + b).drop_last() =~= a + b.drop_last());
        lemma_encoded_concat(a, b.drop_last());
        assert(encoded(a + b) =~= encoded(a) + encoded(b));
    }
}

/// Every byte takes two symbols.
pub proof fn lemma_encoded_len(a: Seq<u8>)
    ensures
        encoded(a).len() == 2 * a.len(),
    decreases a.len(),
{
    if a.len() > 0 {
        lemma_encoded_len(a.drop_last());
    }
}

/// The frame check of a sequence of bytes followed by another continues that of the first.
proof fn lemma_fcs_fold_concat(fcs: u16, a: Seq<u8>, b: Seq<u8>)
    ensures
        fcs_fold(fcs, a + b) == fcs_fold(fcs_fold(fcs, a), b),
    decreases b.len(),
{
    if b.len() == 0 {
        assert(a + b =~= a);
    } else {
        assert((a + b).drop_last() =~= a + b.drop_last());
        lemma_fcs_fold_concat(fcs, a, b.drop_last());
    }
}

/// Encoder and transmit sequencer for one output pin.
pub struct RadioHeadASK {
    fcs: u16,
    buffer: [u8; 128],
    buffer_ptr: usize,
    phase: Phase,
    position: usize,
}

impl View for RadioHeadASK {
    type V = Transmission;

    closed spec fn view(&self) -> Transmission {
        Transmission {
            symbols: self.buffer@.take(self.buffer_ptr as int),
            phase: self.phase,
            position: self.position as nat,
        }
    }
}

impl RadioHeadASK {
    #[verifier::type_invariant]
    spec fn inv(&self) -> bool {
        &&& self.buffer_ptr <= BUFFER_LEN
        &&& self.position <= self.buffer_ptr * BITS_PER_SYMBOL
        &&& (self.phase is Driving || self.phase is Waiting) ==> self.position < self.buffer_ptr
            * BITS_PER_SYMBOL
    }

    /// A transmitter with nothing queued. Its output pin has yet to be brought to the idle
    /// level: it asks for the pin to go low first.
    pub fn new() -> (r: RadioHeadASK)
        ensures
            r@ == (Transmission { symbols: Seq::empty(), phase: Phase::Parking, position: 0 }),
    {
        let r = RadioHeadASK {
            fcs: 0xffff,
            buffer: [0_u8; 128],
            buffer_ptr: 0,
            phase: Phase::Parking,
            position: 0,
        };
        assert(r@.symbols =~= Seq::empty());
        r
    }

    fn update_fcs(&mut self, data: u8)
        ensures
            final(self)@ == old(self)@,
            final(self).fcs == fcs_update(old(self).fcs, data),
    {
        proof {
            use_type_invariant(&*self);
            lemma_fcs_update(self.fcs, data);
        }
        let mut new_data: u8 = data ^ (self.fcs as u8);
        new_data ^= new_data << 4;
        self.fcs = (((new_data as u16) << 8) | (self.fcs >> 8)) ^ ((new_data >> 4) as u16) ^ ((
        new_data as u16) << 3);
    }

    fn enqueue_sextet(&mut self, sextet: u8)
        requires
            old(self)@.symbols.len() < BUFFER_LEN,
        ensures
            final(self)@ == (Transmission {
                symbols: old(self)@.symbols.push(sextet),
                ..old(self)@
            }),
            final(self).fcs == old(self).fcs,
    {
        proof {
            use_type_invariant(&*self);
        }
        self.buffer[self.buffer_ptr] = sextet;
        self.buffer_ptr += 1;
        assert(self@.symbols =~= old(self)@.symbols.push(sextet));
    }

    fn enqueue_bytes(&mut self, bytes: &[u8])
        requires
            old(self)@.symbols.len() + 2 * bytes@.len() <= BUFFER_LEN,
        ensures
            final(self)@ == (Transmission {
                symbols: old(self)@.symbols + encoded(bytes@),
                ..old(self)@
            }),
            final(self).fcs == fcs_fold(old(self).fcs, bytes@),
    {
        let mut i: usize = 0;
        assert(old(self)@.symbols + encoded(bytes@.take(0)) =~= old(self)@.symbols);
        while i < bytes.len()
            invariant
                i <= bytes.len(),
                old(self)@.symbols.len() + 2 * bytes@.len() <= BUFFER_LEN,
                self@ == (Transmission {
                    symbols: old(self)@.symbols + encoded(bytes@.take(i as int)),
                    ..old(self)@
                }),
                self.fcs == fcs_fold(old(self).fcs, bytes@.take(i as int)),
            decreases bytes.len() - i,
        {
            let b: u8 = bytes[i];
            proof {
                lemma_encoded_len(bytes@.take(i as int));
                assert(bytes@.take(i + 1).drop_last() =~= bytes@.take(i as int));
                assert((b >> 4) < 16 && (b & 0xf) < 16) by (bit_vector);
            }
            let ghost before = self@.symbols;
            self.enqueue_sextet(SYMBOLS[(b >> 4) as usize]);
            self.enqueue_sextet(SYMBOLS[(b & 0xf) as usize]);
            self.update_fcs(b);
            assert(self@.symbols =~= old(self)@.symbols + encoded(bytes@.take(i + 1))) by {
                assert(before.push(SYMBOLS[(b >> 4) as int]).push(SYMBOLS[(b & 0xf) as int])
                    =~= before + symbol_pair(b));
            }
            i += 1;
        }
        assert(bytes@.take(i as int) =~= bytes@);
    }

    /// Queues the frame of a packet and gets ready to put it on the wire. The frame takes
    /// the place of whatever was queued or under way.
    pub fn send_packet(&mut self, from: u8, to: u8, id: u8, header_flags: u8, content: &[u8]) -> (action:
        Action)
        requires
            content@.len() <= MAX_PAYLOAD,
        ensures
            final(self)@ == (Transmission {
                symbols: frame_symbols(from, to, id, header_flags, content@),
                phase: Phase::Starting,
                position: 0,
            }),
            action == final(self)@.pending(),
    {
        proof {
            use_type_invariant(&*self);
        }
        self.phase = Phase::Starting;
        self.position = 0;
        self.buffer_ptr = 0;
        self.fcs = 0xffff;
        assert(self@.symbols =~= Seq::new(0, |i: int| 0x2au8));

        let mut n: usize = 0;
        while n < 6
            invariant
                n <= 6,
                self@ == (Transmission {
                    symbols: Seq::new(n as nat, |i: int| 0x2au8),
                    phase: Phase::Starting,
                    position: 0,
                }),
                self.fcs == FCS_SEED,
            decreases 6 - n,
        {
            // the training pattern
            self.enqueue_sextet(0x2a);
            n += 1;
            assert(self@.symbols =~= Seq::new(n as nat, |i: int| 0x2au8));
        }
        self.enqueue_sextet(0x38);
        self.enqueue_sextet(0x2c);
        assert(self@.symbols =~= preamble());

        let msg_len: usize = content.len() + 7;
        let head: [u8; 5] = [msg_len as u8, from, to, id, header_flags];
        let ghost covered = covered_bytes(from, to, id, header_flags, content@);
        assert(head@ =~= header(from, to, id, header_flags, content@.len()));
        self.enqueue_bytes(head.as_slice());
        proof {
            lemma_encoded_len(head@);
        }
        self.enqueue_bytes(content);
        proof {
            lemma_encoded_concat(head@, content@);
            lemma_fcs_fold_concat(FCS_SEED, head@, content@);
        }
        assert(self.fcs == fcs_fold(FCS_SEED, covered));
        assert(self@.symbols =~= preamble() + encoded(covered));

        let crc: u16 = !self.fcs;
        let tail: [u8; 2] = [(crc & 0xff) as u8, (crc >> 8) as u8];
        assert(tail@ =~= frame_check(covered));
        proof {
            lemma_encoded_len(covered);
        }
        self.enqueue_bytes(tail.as_slice());
        proof {
            lemma_encoded_concat(covered, tail@);
        }
        assert(self@.symbols =~= frame_symbols(from, to, id, header_flags, content@));
        Action::StartTimer { hz: BIT_RATE_HZ }
    }

    /// What the transmitter asks of the hardware now.
    pub fn pending(&self) -> (action: Action)
        ensures
            action == self@.pending(),
    {
        proof {
            use_type_invariant(self);
        }
        match self.phase {
            Phase::Starting => Action::StartTimer { hz: BIT_RATE_HZ },
            Phase::Driving => {
                let n: usize = self.position / 6;
                let i: usize = self.position % 6;
                let symbol: u8 = self.buffer[n];
                let shift: u8 = i as u8;
                assert(((symbol & (0x01u8 << shift)) > 0) == (symbol & (1u8 << shift) != 0))
                    by (bit_vector);
                Action::SetPin { high: (symbol & (0x01 << shift)) > 0 }
            },
            Phase::Waiting => Action::WaitPeriod,
            Phase::Parking => Action::SetPin { high: false },
            Phase::Done => Action::Finish(Ok(())),
            Phase::Faulted => Action::Finish(Err(Error::Port)),
        }
    }

    /// Takes in what the hardware reports, and says what to do next.
    pub fn advance(&mut self, event: Event) -> (action: Action)
        ensures
            final(self)@ == old(self)@.after(event),
            action == final(self)@.pending(),
    {
        proof {
            use_type_invariant(&*self);
        }
        match (self.phase, event) {
            (Phase::Starting, Event::TimerStarted) => {
                self.position = 0;
                if self.buffer_ptr > 0 {
                    self.phase = Phase::Driving;
                } else {
                    self.phase = Phase::Parking;
                }
            },
            (Phase::Driving, Event::PinSet) => {
                self.phase = Phase::Waiting;
            },
            (Phase::Driving, Event::PinFault) => {
                self.phase = Phase::Faulted;
            },
            (Phase::Waiting, Event::PeriodElapsed) => {
                if self.position + 1 < self.buffer_ptr * 6 {
                    self.position = self.position + 1;
                    self.phase = Phase::Driving;
                } else {
                    self.phase = Phase::Parking;
                    self.position = self.position + 1;
                }
            },
            (Phase::Parking, Event::PinSet) => {
                self.phase = Phase::Done;
            },
            (Phase::Parking, Event::PinFault) => {
                self.phase = Phase::Faulted;
            },
            _ => {},
        }
        self.pending()
    }
}

/// The events of a transmission in which the hardware does all that is asked of it, up to
/// the end of bit slot `k`: the timer starts, and then, `k` times over, the pin takes its
/// level and a period runs out.
pub open spec fn cooperative(k: nat) -> Seq<Event>
    decreases k,
{
    if k == 0 {
        seq![Event::TimerStarted]
    } else {
        cooperative((k - 1) as nat) + seq![Event::PinSet, Event::PeriodElapsed]
    }
}

/// The state after a sequence of events followed by another.
proof fn lemma_after_all_concat(t: Transmission, a: Seq<Event>, b: Seq<Event>)
    ensures
        t.after_all(a + b) == t.after_all(a).after_all(b),
    decreases b.len(),
{
    if b.len() == 0 {
        assert(a + b =~= a);
    } else {
        assert((a + b).drop_last() =~= a + b.drop_last());
        lemma_after_all_concat(t, a, b.drop_last());
    }
}

/// With hardware that does all that is asked of it, a transmission that starts drives the
/// pin to the level of every bit slot in turn, each symbol's least significant bit first,
/// one slot per period, and once all slots are sent it asks for the pin to go low.
pub proof fn lemma_transmission_sends_every_slot(t: Transmission, k: nat)
    requires
        t.phase is Starting,
        k <= t.slots(),
    ensures
        t.after_all(cooperative(k)).symbols == t.symbols,
        t.after_all(cooperative(k)).position == k,
        k < t.slots() ==> t.after_all(cooperative(k)).pending() == (Action::SetPin {
            high: level(t.symbols, k as int),
        }),
        k == t.slots() ==> t.after_all(cooperative(k)).phase is Parking && t.after_all(
            cooperative(k),
        ).pending() == (Action::SetPin { high: false }),
    decreases k,
{
    reveal_with_fuel(Transmission::after_all, 3);
    if k == 0 {
        assert(cooperative(0).drop_last() =~= Seq::<Event>::empty());
        assert(cooperative(0).last() == Event::TimerStarted);
        assert(t.after_all(cooperative(0)) == t.after(Event::TimerStarted));
    } else {
        let before = cooperative((k - 1) as nat);
        let round = seq![Event::PinSet, Event::PeriodElapsed];
        lemma_transmission_sends_every_slot(t, (k - 1) as nat);
        lemma_after_all_concat(t, before, round);
        let s = t.after_all(before);
        assert(round.drop_last() =~= seq![Event::PinSet]);
        assert(round.drop_last().drop_last() =~= Seq::<Event>::empty());
        assert(round.last() == Event::PeriodElapsed);
        assert(round.drop_last().last() == Event::PinSet);
        assert(s.after_all(round) == s.after(Event::PinSet).after(Event::PeriodElapsed));
    }
}

/// A transmission ends well when the pin goes low after the last slot, and ends with a
/// port error as soon as the pin refuses a level; once ended it stays as it is.
pub proof fn lemma_transmission_ends(t: Transmission, event: Event)
    ensures
        t.phase is Parking ==> t.after(Event::PinSet).pending() == Action::Finish(Ok(())),
        t.phase is Parking || t.phase is Driving ==> t.after(Event::PinFault).pending()
            == Action::Finish(Err(Error::Port)),
        t.phase is Done || t.phase is Faulted ==> t.after(event) == t,
{
}

/// Two bytes with the same symbols are the same byte: a receiver can take the symbols
/// back to bytes.
pub proof fn lemma_symbol_pair_is_injective(a: u8, b: u8)
    requires
        symbol_pair(a) == symbol_pair(b),
    ensures
        a == b,
{
    assert((a >> 4) < 16 && (a & 0xf) < 16 && (b >> 4) < 16 && (b & 0xf) < 16) by (bit_vector);
    lemma_symbol_is_injective(a >> 4, b >> 4);
    lemma_symbol_is_injective(a & 0xf, b & 0xf);
    assert(symbol_pair(a)[0] == symbol_pair(b)[0]);
    assert(symbol_pair(a)[1] == symbol_pair(b)[1]);
    assert((a >> 4) == (b >> 4) && (a & 0xf) == (b & 0xf) ==> a == b) by (bit_vector);
}

/// Each four-bit value has a symbol of its own.
proof fn lemma_symbol_is_injective(x: u8, y: u8)
    ensures
        x < 16 && y < 16 && SYMBOLS[x as int] == SYMBOLS[y as int] ==> x == y,
{
}

/// Two sequences of bytes with the same symbols are the same sequence.
pub proof fn lemma_encoding_is_injective(a: Seq<u8>, b: Seq<u8>)
    requires
        encoded(a) == encoded(b),
    ensures
        a == b,
    decreases a.len(),
{
    lemma_encoded_len(a);
    lemma_encoded_len(b);
    if a.len() > 0 {
        let ea = encoded(a.drop_last());
        let eb = encoded(b.drop_last());
        lemma_encoded_len(a.drop_last());
        lemma_encoded_len(b.drop_last());
        assert(ea =~= encoded(a).take(ea.len() as int));
        assert(eb =~= encoded(b).take(eb.len() as int));
        assert(symbol_pair(a.last()) =~= encoded(a).skip(ea.len() as int));
        assert(symbol_pair(b.last()) =~= encoded(b).skip(eb.len() as int));
        lemma_symbol_pair_is_injective(a.last(), b.last());
        lemma_encoding_is_injective(a.drop_last(), b.drop_last());
        assert(a =~= a.drop_last().push(a.last()));
        assert(b =~= b.drop_last().push(b.last()));
    } else {
        assert(a =~= b);
    }
}

/// The frame check over a frame and its own closing bytes is the same for every frame.
pub proof fn lemma_frame_check_residue(covered: Seq<u8>)
    ensures
        fcs_fold(FCS_SEED, covered + frame_check(covered)) == FCS_RESIDUE,
{
    reveal_with_fuel(fcs_fold, 3);
    let fcs = fcs_fold(FCS_SEED, covered);
    let tail = frame_check(covered);
    lemma_fcs_fold_concat(FCS_SEED, covered, tail);
    assert(tail.drop_last() =~= seq![tail[0]]);
    assert(tail.drop_last().drop_last() =~= Seq::<u8>::empty());
    assert(fcs_fold(fcs, tail) == fcs_update(fcs_update(fcs, tail[0]), tail[1]));
    lemma_fcs_update(fcs, tail[0]);
    lemma_fcs_update(fcs_fast(fcs, tail[0]), tail[1]);
    assert(fcs_fast(fcs_fast(fcs, ((!fcs) & 0xff) as u8), ((!fcs) >> 8) as u8) == 0xf0b8u16)
        by (bit_vector);
}

/// A frame takes eight symbols for the preamble and two for each byte that the length
/// byte counts.
pub proof fn lemma_frame_len(from: u8, to: u8, id: u8, header_flags: u8, content: Seq<u8>)
    ensures
        frame_symbols(from, to, id, header_flags, content).len() == 8 + 2 * (content.len()
            + FRAME_OVERHEAD),
{
    let covered = covered_bytes(from, to, id, header_flags, content);
    lemma_encoded_len(covered + frame_check(covered));
}

} // verus!
