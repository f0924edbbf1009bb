use esp_hal_rmt_onewire::pulse::{pulse_code, EMPTY};
use esp_hal_rmt_onewire::search::{SEARCH_ALARM, SEARCH_NORMAL};
use esp_hal_rmt_onewire::{
    Address, Error, Level, OneWire, Race, Reading, Reply, Request, RmtError, Search, SearchError,
    Signal, Step, Transfer,
};

/// A bus with devices on it. Every device that still takes part answers a
/// read with its bit and the complement; the line carries their conjunction.
struct Bus {
    devices: Vec<u64>,
    live: Vec<u64>,
    position: u32,
    log: Vec<Request>,
}

impl Bus {
    fn new(devices: &[u64]) -> Bus {
        Bus { devices: devices.to_vec(), live: Vec::new(), position: 0, log: Vec::new() }
    }

    fn serve(&mut self, request: Request) -> Reply {
        self.log.push(request);
        match request {
            Request::Reset => {
                self.live = self.devices.clone();
                self.position = 0;
                Reply::Presence(!self.devices.is_empty())
            }
            Request::SendByte(_) => Reply::Sent,
            Request::ReadPair => {
                let at = self.position;
                Reply::Pair(
                    self.live.iter().all(|d| d >> at & 1 == 1),
                    self.live.iter().all(|d| d >> at & 1 == 0),
                )
            }
            Request::WriteBit(bit) => {
                let at = self.position;
                self.live.retain(|d| (d >> at & 1 == 1) == bit);
                self.position += 1;
                Reply::Sent
            }
        }
    }

    /// One pass of `search`, every request served by this bus.
    fn pass(&mut self, search: &mut Search) -> Result<Address, SearchError> {
        let mut step = search.next();
        for _ in 0..200 {
            match step {
                Step::Done(result) => return result,
                Step::Ask(request) => step = search.advance(self.serve(request)),
            }
        }
        panic!("the pass did not end");
    }

    /// All passes of a new search, until it reports its end.
    fn enumerate(&mut self) -> Vec<u64> {
        let mut search = Search::new();
        let mut found = Vec::new();
        for _ in 0..100 {
            match self.pass(&mut search) {
                Ok(address) => found.push(address.value()),
                Err(SearchError::SearchComplete) => return found,
                Err(other) => panic!("pass failed: {:?}", other),
            }
        }
        panic!("the search did not end");
    }
}

/// The same bus one layer down: it takes pulse trains and gives back what a
/// receiver on the line samples. A device that sends a zero holds the line
/// down for the length of a zero slot.
struct Line {
    bus: Bus,
    halts: usize,
}

impl Line {
    fn exchange(&mut self, frame: &[u32], pulled_low: &[bool]) -> Result<Vec<u32>, Error> {
        let mut transfer = Transfer::new();
        loop {
            transfer = match transfer {
                Transfer::Sample => transfer.advance(Signal::Line(Level::High)),
                Transfer::Exchange => transfer.advance(Signal::Raced(Race::Received)),
                Transfer::Halt(_) => {
                    self.halts += 1;
                    transfer.advance(Signal::Halted)
                }
                Transfer::Done(result) => {
                    result?;
                    break;
                }
            };
        }
        let zero = OneWire::encode_bit(false);
        let mut sampled = Vec::new();
        for (n, code) in frame.iter().enumerate() {
            let held = pulled_low.get(n).copied().unwrap_or(false);
            sampled.push(if held && *code != EMPTY { zero } else { *code });
        }
        Ok(sampled)
    }

    fn serve(&mut self, request: Request) -> Reply {
        match request {
            Request::Reset => {
                let present = matches!(self.bus.serve(request), Reply::Presence(true));
                let sent = OneWire::reset_pulses();
                assert_eq!(sent.len(), 3);
                let mut sampled = [EMPTY; 10];
                sampled[0] = pulse_code(Level::High, 60, Level::Low, 600);
                sampled[1] = pulse_code(Level::High, 600, Level::Low, if present { 150 } else { 0 });
                Reply::Presence(OneWire::presence_detected(&sampled))
            }
            Request::SendByte(byte) => {
                let frame = OneWire::encode_byte(byte);
                assert_eq!(OneWire::decode_byte(&frame), byte);
                self.bus.serve(request)
            }
            Request::ReadPair => {
                let (first, second) = match self.bus.serve(request) {
                    Reply::Pair(first, second) => (first, second),
                    other => panic!("unexpected {:?}", other),
                };
                let frame = OneWire::encode_bits(&[true, true]);
                match self.exchange(&frame, &[!first, !second]) {
                    Ok(sampled) => {
                        let bits = OneWire::decode_bits(&sampled[..2]);
                        Reply::Pair(bits[0], bits[1])
                    }
                    Err(e) => Reply::Fault(e),
                }
            }
            Request::WriteBit(bit) => {
                let frame = OneWire::encode_bits(&[bit]);
                match self.exchange(&frame, &[]) {
                    Ok(sampled) => {
                        assert_eq!(OneWire::decode_bits(&sampled[..1]), vec![bit]);
                        self.bus.serve(request)
                    }
                    Err(e) => Reply::Fault(e),
                }
            }
        }
    }
}

#[test]
fn new_search_sends_the_normal_command() {
    let search = Search::new();
    assert_eq!(search.command(), 0xF0);
    assert_eq!(SEARCH_NORMAL, 0xF0);
    assert!(!search.is_complete());
    assert_eq!(search.last_discrepancy(), None);
    assert_eq!(search.address(), Address(0));
    assert_eq!(search.next(), Step::Ask(Request::Reset));
}

#[test]
fn alarm_search_sends_the_alarm_command() {
    let mut search = Search::new_alarm();
    assert_eq!(search.command(), 0xEC);
    assert_eq!(SEARCH_ALARM, 0xEC);
    assert!(!search.is_complete());
    assert_eq!(search.advance(Reply::Presence(true)), Step::Ask(Request::SendByte(0xEC)));
}

#[test]
fn pass_starts_with_reset_then_command_then_first_pair() {
    let mut search = Search::new();
    assert_eq!(search.next(), Step::Ask(Request::Reset));
    assert_eq!(search.advance(Reply::Presence(true)), Step::Ask(Request::SendByte(0xF0)));
    assert_eq!(search.next(), Step::Ask(Request::SendByte(0xF0)));
    assert_eq!(search.advance(Reply::Sent), Step::Ask(Request::ReadPair));
    assert_eq!(search.next(), Step::Ask(Request::ReadPair));
}

#[test]
fn classify_pairs() {
    assert_eq!(Search::classify(false, true), Reading::Zero);
    assert_eq!(Search::classify(true, false), Reading::One);
    assert_eq!(Search::classify(false, false), Reading::Conflict);
    assert_eq!(Search::classify(true, true), Reading::Silent);
}

#[test]
fn three_devices_are_each_found_once() {
    let mut bus = Bus::new(&[1, 2, 3]);
    let mut search = Search::new();
    let mut found = Vec::new();
    for _ in 0..3 {
        found.push(bus.pass(&mut search).unwrap().value());
    }
    assert_eq!(found, vec![2, 1, 3]);
    let mut sorted = found.clone();
    sorted.sort();
    assert_eq!(sorted, vec![1, 2, 3]);
    assert!(search.is_complete());
    assert_eq!(bus.pass(&mut search), Err(SearchError::SearchComplete));
    assert_eq!(bus.pass(&mut search), Err(SearchError::SearchComplete));
}

#[test]
fn three_devices_are_each_found_once_through_pulses() {
    let mut line = Line { bus: Bus::new(&[1, 2, 3]), halts: 0 };
    let mut search = Search::new();
    let mut found = Vec::new();
    loop {
        let mut step = search.next();
        let result = loop {
            match step {
                Step::Done(result) => break result,
                Step::Ask(request) => step = search.advance(line.serve(request)),
            }
        };
        match result {
            Ok(address) => found.push(address.value()),
            Err(e) => {
                assert_eq!(e, SearchError::SearchComplete);
                break;
            }
        }
    }
    found.sort();
    assert_eq!(found, vec![1, 2, 3]);
    assert_eq!(line.halts, 3 * 2 * 64);
}

#[test]
fn single_device_is_found_and_completes_the_search() {
    let device = 0x2800_0000_1234_5601u64;
    let mut bus = Bus::new(&[device]);
    let mut search = Search::new();
    assert_eq!(bus.pass(&mut search), Ok(Address(device)));
    assert!(search.is_complete());
    assert_eq!(search.address(), Address(device));
    assert_eq!(search.last_discrepancy(), None);
    let traffic = bus.log.len();
    assert_eq!(bus.pass(&mut search), Err(SearchError::SearchComplete));
    assert_eq!(bus.log.len(), traffic);
}

#[test]
fn single_device_pass_has_reset_command_and_64_pairs() {
    let mut bus = Bus::new(&[0xFFFF_FFFF_FFFF_FFFF]);
    let mut search = Search::new();
    assert_eq!(bus.pass(&mut search), Ok(Address(u64::MAX)));
    assert_eq!(bus.log.len(), 2 + 2 * 64);
    assert_eq!(bus.log[0], Request::Reset);
    assert_eq!(bus.log[1], Request::SendByte(0xF0));
    for place in 0..64 {
        assert_eq!(bus.log[2 + 2 * place], Request::ReadPair);
        assert_eq!(bus.log[3 + 2 * place], Request::WriteBit(true));
    }
}

#[test]
fn empty_bus_reports_no_devices_without_bit_exchanges() {
    let mut bus = Bus::new(&[]);
    let mut search = Search::new();
    assert_eq!(bus.pass(&mut search), Err(SearchError::NoDevicesPresent));
    assert_eq!(bus.log, vec![Request::Reset]);
    assert!(!search.is_complete());
    assert_eq!(search.next(), Step::Ask(Request::Reset));
    assert_eq!(bus.pass(&mut search), Err(SearchError::NoDevicesPresent));
}

#[test]
fn first_conflict_goes_low_and_is_kept() {
    let mut search = Search::new();
    search.advance(Reply::Presence(true));
    search.advance(Reply::Sent);
    for _ in 0..5 {
        assert_eq!(search.advance(Reply::Pair(false, true)), Step::Ask(Request::WriteBit(false)));
        assert_eq!(search.advance(Reply::Sent), Step::Ask(Request::ReadPair));
    }
    assert_eq!(search.advance(Reply::Pair(false, false)), Step::Ask(Request::WriteBit(false)));
    assert_eq!(search.advance(Reply::Sent), Step::Ask(Request::ReadPair));
    for _ in 6..63 {
        assert_eq!(search.advance(Reply::Pair(true, false)), Step::Ask(Request::WriteBit(true)));
        assert_eq!(search.advance(Reply::Sent), Step::Ask(Request::ReadPair));
    }
    assert_eq!(search.advance(Reply::Pair(true, false)), Step::Ask(Request::WriteBit(true)));
    let expected = 0xFFFF_FFFF_FFFF_FFC0u64;
    assert_eq!(search.advance(Reply::Sent), Step::Done(Ok(Address(expected))));
    assert_eq!(search.last_discrepancy(), Some(5));
    assert!(!search.is_complete());
    assert_eq!(search.address(), Address(expected));
}

#[test]
fn next_pass_turns_at_the_kept_place() {
    let mut bus = Bus::new(&[0b0100, 0b1000]);
    let mut search = Search::new();
    assert_eq!(bus.pass(&mut search), Ok(Address(0b1000)));
    assert_eq!(search.last_discrepancy(), Some(2));
    assert!(!search.is_complete());
    assert_eq!(bus.pass(&mut search), Ok(Address(0b0100)));
    assert_eq!(search.last_discrepancy(), None);
    assert!(search.is_complete());
}

#[test]
fn passes_below_the_turn_follow_the_last_address() {
    let mut bus = Bus::new(&[0b001, 0b011, 0b111]);
    assert_eq!(bus.enumerate(), vec![0b001, 0b011, 0b111]);
}

#[test]
fn replayed_zero_keeps_its_place() {
    let mut bus = Bus::new(&[0, 1, 2]);
    let mut search = Search::new();
    assert_eq!(bus.pass(&mut search), Ok(Address(0)));
    assert_eq!(search.last_discrepancy(), Some(1));
    assert_eq!(bus.pass(&mut search), Ok(Address(2)));
    assert_eq!(search.last_discrepancy(), Some(0));
    assert!(!search.is_complete());
    assert_eq!(bus.pass(&mut search), Ok(Address(1)));
    assert_eq!(search.last_discrepancy(), None);
    assert!(search.is_complete());
    assert_eq!(bus.pass(&mut search), Err(SearchError::SearchComplete));
}

#[test]
fn replayed_one_is_not_kept() {
    let mut search = Search::new();
    search.advance(Reply::Presence(true));
    search.advance(Reply::Sent);
    // A first pass with conflicts at the places 0 and 1 only.
    for place in 0..64 {
        let pair = if place < 2 { Reply::Pair(false, false) } else { Reply::Pair(false, true) };
        assert_eq!(search.advance(pair), Step::Ask(Request::WriteBit(false)));
        search.advance(Reply::Sent);
    }
    assert_eq!(search.last_discrepancy(), Some(1));
    assert_eq!(search.address(), Address(0));
    // The second pass replays the zero at place 0 and turns at place 1.
    search.advance(Reply::Presence(true));
    search.advance(Reply::Sent);
    assert_eq!(search.advance(Reply::Pair(false, false)), Step::Ask(Request::WriteBit(false)));
    search.advance(Reply::Sent);
    assert_eq!(search.advance(Reply::Pair(false, false)), Step::Ask(Request::WriteBit(true)));
    search.advance(Reply::Sent);
    for _ in 2..64 {
        search.advance(Reply::Pair(false, true));
        search.advance(Reply::Sent);
    }
    assert_eq!(search.address(), Address(2));
    assert_eq!(search.last_discrepancy(), Some(0));
    // The third pass turns at place 0 and replays nothing.
    search.advance(Reply::Presence(true));
    search.advance(Reply::Sent);
    assert_eq!(search.advance(Reply::Pair(false, false)), Step::Ask(Request::WriteBit(true)));
    search.advance(Reply::Sent);
    for _ in 1..64 {
        search.advance(Reply::Pair(false, true));
        search.advance(Reply::Sent);
    }
    assert_eq!(search.address(), Address(1));
    assert!(search.is_complete());
}

#[test]
fn every_device_is_found_in_the_order_of_the_tree() {
    for devices in [
        vec![0u64, 1, 2],
        vec![0, 1, 2, 3, 4, 5, 6, 7],
        vec![5, 9, 12, 13, 0x8000_0000_0000_0000, 0x8000_0000_0000_0001],
        vec![u64::MAX, u64::MAX - 1, 1 << 63, 1 << 62, 0],
    ] {
        let mut bus = Bus::new(&devices);
        let found = bus.enumerate();
        let mut expected = devices.clone();
        expected.sort_by_key(|d| d.reverse_bits());
        assert_eq!(found, expected);
    }
}

#[test]
fn found_addresses_are_devices_and_never_repeat() {
    let devices = [
        0x28FF_0000_0000_0001u64,
        0x28FF_0000_0000_0003,
        0x2800_1234_5678_9ABC,
        0x10AA_BBCC_DDEE_FF00,
        0xFFFF_FFFF_FFFF_FFFF,
        0,
    ];
    let mut bus = Bus::new(&devices);
    let found = bus.enumerate();
    assert_eq!(found.len(), devices.len());
    for device in devices {
        assert!(found.contains(&device));
    }
    for (n, address) in found.iter().enumerate() {
        assert!(devices.contains(address));
        assert!(!found[..n].contains(address));
    }
    for pair in found.windows(2) {
        assert!(pair[0].reverse_bits() < pair[1].reverse_bits());
    }
}

#[test]
fn silence_in_the_middle_of_a_pass_reports_no_devices() {
    let mut search = Search::new();
    search.advance(Reply::Presence(true));
    search.advance(Reply::Sent);
    search.advance(Reply::Pair(true, false));
    search.advance(Reply::Sent);
    assert_eq!(
        search.advance(Reply::Pair(true, true)),
        Step::Done(Err(SearchError::NoDevicesPresent))
    );
    assert_eq!(search.address(), Address(0));
    assert_eq!(search.last_discrepancy(), None);
    assert!(!search.is_complete());
    assert_eq!(search.next(), Step::Ask(Request::Reset));
}

#[test]
fn fault_ends_the_pass_and_leaves_the_search_as_it_was() {
    let mut bus = Bus::new(&[0b01, 0b10]);
    let mut search = Search::new();
    assert_eq!(bus.pass(&mut search), Ok(Address(0b10)));
    assert_eq!(search.last_discrepancy(), Some(0));
    search.advance(Reply::Presence(true));
    search.advance(Reply::Sent);
    search.advance(Reply::Pair(false, false));
    assert_eq!(
        search.advance(Reply::Fault(Error::ReceiveTimedOut)),
        Step::Done(Err(SearchError::BusError(Error::ReceiveTimedOut)))
    );
    assert_eq!(search.address(), Address(0b10));
    assert_eq!(search.last_discrepancy(), Some(0));
    assert!(!search.is_complete());
    assert_eq!(bus.pass(&mut search), Ok(Address(0b01)));
    assert!(search.is_complete());
}

#[test]
fn fault_at_any_request_is_a_bus_error() {
    let faults = [
        Error::InputNotHigh,
        Error::ReceiveTimedOut,
        Error::ReceiveError(RmtError::TransmissionError),
        Error::SendError(RmtError::Overflow),
    ];
    for fault in faults {
        for steps in 0..4 {
            let mut search = Search::new();
            let replies = [Reply::Presence(true), Reply::Sent, Reply::Pair(false, true)];
            for reply in &replies[..steps] {
                search.advance(*reply);
            }
            assert_eq!(
                search.advance(Reply::Fault(fault)),
                Step::Done(Err(SearchError::BusError(fault)))
            );
            assert_eq!(search.next(), Step::Ask(Request::Reset));
        }
    }
}

#[test]
fn reply_out_of_turn_repeats_the_request() {
    let mut search = Search::new();
    assert_eq!(search.advance(Reply::Sent), Step::Ask(Request::Reset));
    assert_eq!(search.advance(Reply::Pair(false, false)), Step::Ask(Request::Reset));
    search.advance(Reply::Presence(true));
    assert_eq!(search.advance(Reply::Presence(true)), Step::Ask(Request::SendByte(0xF0)));
    assert_eq!(search.advance(Reply::Pair(true, false)), Step::Ask(Request::SendByte(0xF0)));
    search.advance(Reply::Sent);
    assert_eq!(search.advance(Reply::Sent), Step::Ask(Request::ReadPair));
    assert_eq!(search.advance(Reply::Presence(false)), Step::Ask(Request::ReadPair));
    search.advance(Reply::Pair(true, false));
    assert_eq!(search.advance(Reply::Pair(false, true)), Step::Ask(Request::WriteBit(true)));
}

#[test]
fn complete_search_answers_every_reply_with_its_end() {
    let mut bus = Bus::new(&[7]);
    let mut search = Search::new();
    assert_eq!(bus.pass(&mut search), Ok(Address(7)));
    let end = Step::Done(Err(SearchError::SearchComplete));
    assert_eq!(search.next(), end);
    assert_eq!(search.advance(Reply::Presence(true)), end);
    assert_eq!(search.advance(Reply::Sent), end);
    assert_eq!(search.advance(Reply::Pair(false, false)), end);
    assert_eq!(search.advance(Reply::Fault(Error::InputNotHigh)), end);
    assert_eq!(search.address(), Address(7));
    assert!(search.is_complete());
}

#[test]
fn masked_places_follow_the_fixed_bits() {
    let mut bus = Bus::new(&[0b0101, 0b0110, 0b1101]);
    let mut search = Search::new_with_mask(0b01, 0b11);
    assert_eq!(search.command(), 0xEC);
    assert_eq!(bus.pass(&mut search), Ok(Address(0b0101)));
    assert_eq!(search.last_discrepancy(), Some(3));
    assert_eq!(bus.pass(&mut search), Ok(Address(0b1101)));
    assert!(search.is_complete());
}

#[test]
fn masked_place_is_forced_whatever_is_read() {
    let mut search = Search::new_with_mask(0b1, 0b1);
    search.advance(Reply::Presence(true));
    search.advance(Reply::Sent);
    assert_eq!(search.advance(Reply::Pair(false, true)), Step::Ask(Request::WriteBit(true)));
    search.advance(Reply::Sent);
    assert_eq!(
        search.advance(Reply::Pair(true, true)),
        Step::Done(Err(SearchError::NoDevicesPresent))
    );
    let mut search = Search::new_with_mask(0, 0b1);
    search.advance(Reply::Presence(true));
    search.advance(Reply::Sent);
    assert_eq!(search.advance(Reply::Pair(true, true)), Step::Ask(Request::WriteBit(false)));
}
