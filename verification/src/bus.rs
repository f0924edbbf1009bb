//! A bus with devices on it, as far as a search can tell, and what a search
//! finds on such a bus.
//!
//! The devices are a set of addresses. While a pass runs, the devices that
//! still take part answer each read with their bit and its complement, and the
//! line carries a one only where all of them send a one. After each written bit
//! the devices that hold the other bit drop out.

use crate::address::Address;
use crate::bits::{
    agree_below, agree_from, lemma_with_bit, lemma_word_bits_determine, lemma_zero_word, with_bit,
    word_bit,
};
use vstd::set_lib::lemma_len_subset;
use crate::error::SearchError;
use crate::search::{Cursor, Reading, Reply, SearchState, Step, reading_of};
use vstd::prelude::*;

verus! {

/// Whether any device is on the bus.
pub open spec fn occupied(devices: Set<u64>) -> bool {
    exists|d: u64| devices.contains(d)
}

/// The two bits read at `position` while the devices `live` take part: the
/// conjunction of their bits there, and the conjunction of the complements.
pub open spec fn pair_at(live: Set<u64>, position: u8) -> (bool, bool) {
    (
        forall|d: u64| live.contains(d) ==> word_bit(d, position),
        forall|d: u64| live.contains(d) ==> !word_bit(d, position),
    )
}

/// The devices of `live` that go on taking part after `direction` was
/// written at `position`.
pub open spec fn narrowed(live: Set<u64>, position: u8, direction: bool) -> Set<u64> {
    Set::new(|d: u64| live.contains(d) && word_bit(d, position) == direction)
}

/// The devices of `devices` whose address has the bits of `path` below
/// `position`.
pub open spec fn survivors(devices: Set<u64>, path: u64, position: u8) -> Set<u64> {
    Set::new(|d: u64| devices.contains(d) && agree_below(d, path, position))
}

/// What the bus answers to the request that `s` waits for, while the devices
/// `live` take part.
pub open spec fn answer(live: Set<u64>, s: SearchState) -> Reply {
    match s.cursor {
        Cursor::Ready => Reply::Presence(occupied(live)),
        Cursor::Command => Reply::Sent,
        Cursor::Probe { position, .. } => Reply::Pair(
            pair_at(live, position).0,
            pair_at(live, position).1,
        ),
        Cursor::Select { .. } => Reply::Sent,
    }
}

/// The devices that take part after the request that `s` waits for.
pub open spec fn listening(live: Set<u64>, s: SearchState) -> Set<u64> {
    match s.cursor {
        Cursor::Select { position, direction, .. } => narrowed(live, position, direction),
        _ => live,
    }
}

/// How many transactions a pass has before it at the most.
pub open spec fn remaining(cursor: Cursor) -> nat {
    match cursor {
        Cursor::Ready => 130,
        Cursor::Command => 129,
        Cursor::Probe { position, .. } => (2 * (64 - position)) as nat,
        Cursor::Select { position, .. } => (2 * (64 - position) - 1) as nat,
    }
}

/// The search after the rest of the pass, and the result of the pass, if
/// every request is answered by the bus on which the devices `live` take part.
pub open spec fn run(s: SearchState, live: Set<u64>) -> (SearchState, Result<Address, SearchError>)
    decreases remaining(s.cursor),
    when s.valid()
{
    let (next, step) = s.step(answer(live, s));
    match step {
        Step::Done(result) => (next, result),
        Step::Ask(_) => run(next, listening(live, s)),
    }
}

/// Whether a pass that follows `path` could turn at `place` next time: the
/// path goes on with zero there, and some device that has the bits of the path
/// below `place` holds a one there.
pub open spec fn open_at(devices: Set<u64>, path: u64, place: u8) -> bool {
    &&& place < 64
    &&& !word_bit(path, place)
    &&& exists|w: u64| devices.contains(w) && agree_below(w, path, place) && word_bit(w, place)
}

/// Whether `turn` is the highest place below `limit` at which `path` is
/// open, or `None` when it is open at no place below `limit`.
pub open spec fn highest_open(devices: Set<u64>, path: u64, limit: u8, turn: Option<u8>) -> bool {
    match turn {
        Some(t) => {
            &&& t < limit
            &&& open_at(devices, path, t)
            &&& forall|z: u8| t < z < limit ==> !open_at(devices, path, z)
        },
        None => forall|z: u8| z < limit ==> !open_at(devices, path, z),
    }
}

/// Whether `d` parts from `path` at some place below `limit`, holding the
/// one where the path goes on with zero.
pub open spec fn left_behind(path: u64, d: u64, limit: u8) -> bool {
    exists|n: u8| n < limit && agree_below(path, d, n) && !word_bit(path, n) && word_bit(d, n)
}

/// Whether `a` comes before `b` on the way through the tree: at the lowest
/// place where they differ, `a` holds the zero.
pub open spec fn path_before(a: u64, b: u64) -> bool {
    left_behind(a, b, 64)
}

/// Whether `s` is a search between two passes over the bus `devices`, with
/// no place fixed. Either it has found nothing yet, or it holds the device
/// found last and the highest place where another device parts from it to
/// the side not walked yet; it is complete when there is no such place.
pub open spec fn tracks(s: SearchState, devices: Set<u64>) -> bool {
    &&& s.valid()
    &&& s.cursor is Ready
    &&& s.mask == 0
    &&& s.complete ==> s.last_discrepancy is None
    &&& (s.complete || s.last_discrepancy is Some) ==> devices.contains(s.address) && highest_open(
        devices,
        s.address,
        64,
        s.last_discrepancy,
    )
}

/// Whether the device `d` is still to be reported by a search that found
/// `address` last and turns at `turn`: it is on the bus, and it parts from
/// `address` at the turn.
pub open spec fn ahead(devices: Set<u64>, address: u64, turn: Option<u8>, d: u64) -> bool {
    &&& devices.contains(d)
    &&& turn matches Some(t) ==> agree_below(d, address, t) && word_bit(d, t)
}

/// What holds while a pass that started from `address` and `turn` stands
/// before place `position`, having walked `path` and kept `last_zero`, with
/// exactly the devices `live` taking part.
spec fn walked(
    devices: Set<u64>,
    address: u64,
    turn: Option<u8>,
    position: u8,
    path: u64,
    last_zero: Option<u8>,
    live: Set<u64>,
) -> bool {
    &&& position <= 64
    &&& live =~= survivors(devices, path, position)
    &&& occupied(live)
    &&& agree_from(path, address, position)
    &&& highest_open(devices, path, position, last_zero)
    &&& forall|d: u64| #[trigger]
        ahead(devices, address, turn, d) ==> live.contains(d) || left_behind(path, d, position)
    &&& turn matches Some(t) ==> {
        &&& t < 64
        &&& devices.contains(address)
        &&& open_at(devices, address, t)
        &&& if position <= t {
            agree_below(path, address, position)
        } else {
            agree_below(path, address, t) && word_bit(path, t)
        }
    }
}

/// Whether `s` is in the middle of a pass over `devices`, about to read a
/// pair, with exactly the devices `live` taking part.
spec fn on_course(s: SearchState, devices: Set<u64>, live: Set<u64>) -> bool {
    &&& s.valid()
    &&& !s.complete
    &&& s.mask == 0
    &&& s.cursor matches Cursor::Probe { position, path, last_zero }
    &&& walked(devices, s.address, s.last_discrepancy, position, path, last_zero, live)
}

/// What a pass that is on course comes to.
spec fn arrives(
    s: SearchState,
    devices: Set<u64>,
    end: (SearchState, Result<Address, SearchError>),
) -> bool {
    &&& s.cursor matches Cursor::Probe { position, path, last_zero }
    &&& end.1 matches Ok(found)
    &&& end.0 == s.committed(found.0, end.0.last_discrepancy)
    &&& devices.contains(found.0)
    &&& agree_below(found.0, path, position)
    &&& highest_open(devices, found.0, 64, end.0.last_discrepancy)
    &&& forall|d: u64| #[trigger]
        ahead(devices, s.address, s.last_discrepancy, d) ==> d == found.0 || path_before(found.0, d)
    &&& s.last_discrepancy matches Some(turn) ==> {
        &&& agree_below(found.0, s.address, turn)
        &&& word_bit(found.0, turn)
    }
}

proof fn lemma_open_at_stable(devices: Set<u64>, path: u64, other: u64, place: u8)
    requires
        open_at(devices, path, place),
        agree_below(path, other, (place + 1) as u8),
    ensures
        open_at(devices, other, place),
{
    let w = choose|w: u64| devices.contains(w) && agree_below(w, path, place) && word_bit(w, place);
    assert(word_bit(path, place) == word_bit(other, place));
    assert(agree_below(w, other, place));
}

proof fn lemma_left_behind_stable(path: u64, other: u64, d: u64, limit: u8, more: u8)
    requires
        left_behind(path, d, limit),
        agree_below(path, other, limit),
        limit <= more,
    ensures
        left_behind(other, d, more),
{
    let n = choose|n: u8| n < limit && agree_below(path, d, n) && !word_bit(path, n) && word_bit(d, n);
    assert(word_bit(path, n) == word_bit(other, n));
    assert(agree_below(other, d, n));
}

/// One place of a pass: the pair is read, the bit is chosen and written.
proof fn lemma_probe_step(s: SearchState, devices: Set<u64>, live: Set<u64>)
    requires
        on_course(s, devices, live),
    ensures
        ({
            let (mid, step) = s.step(answer(live, s));
            &&& s.cursor matches Cursor::Probe { position, path, last_zero }
            &&& step matches Step::Ask(_)
            &&& mid.valid()
            &&& mid.cursor matches Cursor::Select {
                position: at,
                path: onward,
                last_zero: kept,
                direction,
            }
            &&& at == position
            &&& agree_below(onward, path, position)
            &&& mid.address == s.address && mid.last_discrepancy == s.last_discrepancy && mid.mask
                == s.mask && mid.command == s.command && !mid.complete
            &&& walked(
                devices,
                s.address,
                s.last_discrepancy,
                (position + 1) as u8,
                onward,
                kept,
                narrowed(live, position, direction),
            )
        }),
{
    let position = s.cursor->Probe_position;
    let path = s.cursor->Probe_path;
    let last_zero = s.cursor->Probe_last_zero;
    let turn = s.last_discrepancy;
    let (first, second) = pair_at(live, position);
    let reading = reading_of(first, second);
    let some = choose|d: u64| live.contains(d);
    assert(live.contains(some));
    lemma_zero_word(position);
    assert(reading != Reading::Silent) by {
        if word_bit(some, position) {
            assert(!second);
        } else {
            assert(!first);
        }
    }
    let (direction, keep) = s.choice(position, path, reading).unwrap();
    let onward = with_bit(path, position, direction);
    let next_place = (position + 1) as u8;
    let kept = if keep {
        Some(position)
    } else {
        last_zero
    };
    let next_live = narrowed(live, position, direction);
    assert forall|i: u8| i < 64 implies word_bit(onward, i) == (if i == position {
        direction
    } else {
        word_bit(path, i)
    }) by {
        lemma_with_bit(path, position, direction, i);
    }
    assert(agree_below(onward, path, position));
    assert(agree_below(path, onward, position));
    // Some device that takes part holds the chosen bit.
    let stays: u64 = if reading == Reading::Conflict {
        if direction {
            choose|d: u64| live.contains(d) && word_bit(d, position)
        } else {
            choose|d: u64| live.contains(d) && !word_bit(d, position)
        }
    } else {
        some
    };
    assert(live.contains(stays) && word_bit(stays, position) == direction);
    assert(next_live.contains(stays));
    assert(next_live =~= survivors(devices, onward, next_place)) by {
        assert forall|d: u64|
            next_live.contains(d) <==> survivors(devices, onward, next_place).contains(d) by {
            if next_live.contains(d) {
                assert(agree_below(d, path, position));
                assert(agree_below(d, onward, next_place));
            }
            if survivors(devices, onward, next_place).contains(d) {
                assert(agree_below(d, onward, next_place));
                assert(word_bit(d, position) == word_bit(onward, position));
                assert(agree_below(d, path, position));
                assert(survivors(devices, path, position).contains(d));
            }
        }
    }
    assert(agree_from(onward, s.address, next_place));
    // Where the pass stands relative to the place of the last turn.
    if let Some(t) = turn {
        let w = choose|w: u64|
            devices.contains(w) && agree_below(w, s.address, t) && word_bit(w, t);
        if position < t {
            assert(agree_below(s.address, path, position));
            assert(live.contains(s.address));
            assert(word_bit(path, position) == word_bit(s.address, position));
            assert(direction == word_bit(s.address, position));
            assert(agree_below(onward, s.address, next_place));
        } else if position == t {
            assert(agree_below(s.address, path, position));
            assert(agree_below(w, path, position));
            assert(live.contains(s.address));
            assert(live.contains(w));
            assert(reading == Reading::Conflict);
            assert(direction);
            assert(agree_below(onward, s.address, t));
        } else {
            assert(agree_below(onward, s.address, t));
            assert(word_bit(onward, t));
        }
    }
    // The place is kept exactly if the path is open there.
    assert(keep <==> open_at(devices, onward, position)) by {
        if keep {
            assert(reading == Reading::Conflict && !direction);
            let w = choose|d: u64| live.contains(d) && word_bit(d, position);
            assert(agree_below(w, onward, position));
        }
        if open_at(devices, onward, position) {
            let w = choose|w: u64|
                devices.contains(w) && agree_below(w, onward, position) && word_bit(w, position);
            assert(agree_below(w, path, position));
            assert(live.contains(w));
            assert(!direction);
            assert(reading == Reading::Conflict);
        }
    }
    assert(highest_open(devices, onward, next_place, kept)) by {
        assert forall|z: u8| z < position implies open_at(devices, onward, z) == open_at(
            devices,
            path,
            z,
        ) by {
            if open_at(devices, onward, z) {
                lemma_open_at_stable(devices, onward, path, z);
            }
            if open_at(devices, path, z) {
                lemma_open_at_stable(devices, path, onward, z);
            }
        }
    }
    // A device still to be reported either goes on taking part or is left
    // behind on the side of the one.
    assert forall|d: u64| #[trigger] ahead(devices, s.address, turn, d) implies next_live.contains(
        d,
    ) || left_behind(onward, d, next_place) by {
        if left_behind(path, d, position) {
            lemma_left_behind_stable(path, onward, d, position, next_place);
        } else {
            assert(live.contains(d));
            assert(agree_below(d, path, position));
            if word_bit(d, position) != direction {
                if direction {
                    // The way is one only where every device ahead holds a one.
                    if let Some(t) = turn {
                        if position < t {
                            assert(word_bit(d, position) == word_bit(s.address, position));
                        }
                    }
                    assert(false);
                }
                assert(agree_below(onward, d, position));
                assert(!word_bit(onward, position) && word_bit(d, position));
            }
        }
    }
}

/// The end of a pass: one device is left, and it is the path walked.
proof fn lemma_walked_to_the_end(
    devices: Set<u64>,
    address: u64,
    turn: Option<u8>,
    path: u64,
    last_zero: Option<u8>,
    live: Set<u64>,
)
    requires
        walked(devices, address, turn, 64, path, last_zero, live),
    ensures
        devices.contains(path),
        highest_open(devices, path, 64, last_zero),
        forall|d: u64| #[trigger] ahead(devices, address, turn, d) ==> d == path || path_before(path, d),
        turn matches Some(t) ==> agree_below(path, address, t) && word_bit(path, t),
{
    let last = choose|d: u64| live.contains(d);
    assert(survivors(devices, path, 64).contains(last));
    lemma_word_bits_determine(last, path);
    assert forall|d: u64| #[trigger] ahead(devices, address, turn, d) implies d == path
        || path_before(path, d) by {
        if live.contains(d) {
            assert(survivors(devices, path, 64).contains(d));
            lemma_word_bits_determine(d, path);
        }
    }
}

proof fn lemma_run_on_course(s: SearchState, devices: Set<u64>, live: Set<u64>)
    requires
        on_course(s, devices, live),
    ensures
        arrives(s, devices, run(s, live)),
    decreases remaining(s.cursor),
{
    let position = s.cursor->Probe_position;
    let path = s.cursor->Probe_path;
    lemma_probe_step(s, devices, live);
    let (mid, _) = s.step(answer(live, s));
    let onward = mid.cursor->Select_path;
    let kept = mid.cursor->Select_last_zero;
    let direction = mid.cursor->Select_direction;
    let next_live = narrowed(live, position, direction);
    let (after, step) = mid.step(answer(live, mid));
    assert(run(s, live) == run(mid, live));
    if position + 1 == 64 {
        lemma_walked_to_the_end(devices, s.address, s.last_discrepancy, onward, kept, next_live);
        assert(run(mid, live) == (
            mid.committed(onward, kept),
            Ok::<Address, SearchError>(Address(onward)),
        ));
    } else {
        assert(after.cursor == Cursor::Probe {
            position: (position + 1) as u8,
            path: onward,
            last_zero: kept,
        });
        assert(run(mid, live) == run(after, next_live));
        assert(on_course(after, devices, next_live));
        lemma_run_on_course(after, devices, next_live);
        let end = run(after, next_live);
        let found = end.1->Ok_0;
        assert(agree_below(found.0, path, position));
        assert(arrives(s, devices, end));
    }
}

/// Of two different addresses one comes before the other.
pub proof fn lemma_path_before_total(a: u64, b: u64)
    ensures
        a == b || path_before(a, b) || path_before(b, a),
{
    lemma_first_difference(a, b, 64);
    if agree_below(a, b, 64) {
        lemma_word_bits_determine(a, b);
    }
}

proof fn lemma_first_difference(a: u64, b: u64, n: u8)
    requires
        n <= 64,
    ensures
        agree_below(a, b, n) || left_behind(a, b, n) || left_behind(b, a, n),
    decreases n,
{
    if n > 0 {
        let m = (n - 1) as u8;
        lemma_first_difference(a, b, m);
        if agree_below(a, b, m) {
            if word_bit(a, m) == word_bit(b, m) {
                assert(agree_below(a, b, n));
            } else if word_bit(b, m) {
                assert(m < n && agree_below(a, b, m) && !word_bit(a, m) && word_bit(b, m));
            } else {
                assert(agree_below(b, a, m));
                assert(m < n && agree_below(b, a, m) && !word_bit(b, m) && word_bit(a, m));
            }
        } else if left_behind(a, b, m) {
            lemma_left_behind_stable(a, a, b, m, n);
        } else {
            lemma_left_behind_stable(b, b, a, m, n);
        }
    }
}

/// The way through the tree has a direction: what comes before something
/// that comes before a third comes before the third, and nothing comes before
/// itself.
pub proof fn lemma_path_before_orders(a: u64, b: u64, c: u64)
    ensures
        path_before(a, b) && path_before(b, c) ==> path_before(a, c),
        !path_before(a, a),
{
    if path_before(a, b) && path_before(b, c) {
        let n = choose|n: u8| n < 64 && agree_below(a, b, n) && !word_bit(a, n) && word_bit(b, n);
        let m = choose|m: u8| m < 64 && agree_below(b, c, m) && !word_bit(b, m) && word_bit(c, m);
        if n < m {
            assert(agree_below(a, c, n) && !word_bit(a, n) && word_bit(c, n));
        } else {
            assert(agree_below(a, c, m) && !word_bit(a, m) && word_bit(c, m));
        }
    }
}

/// On a bus that holds at least one device and does not change during the
/// pass, a search with no place fixed that is not complete finds the next
/// device on the way through the tree. The pass yields the address of a
/// device on the bus, and the search takes that address over together with
/// the highest place where a device parts from it to the side not walked.
/// If the search had found a device before, the new one comes after it, and
/// no device of the bus lies between the two; if it had found none, no
/// device of the bus comes before the one found.
pub proof fn lemma_pass_finds_next(s: SearchState, devices: Set<u64>)
    requires
        tracks(s, devices),
        !s.complete,
        occupied(devices),
    ensures
        run(s, devices).1 matches Ok(found) && devices.contains(found.0),
        run(s, devices).0 == s.committed(
            run(s, devices).1->Ok_0.0,
            run(s, devices).0.last_discrepancy,
        ),
        tracks(run(s, devices).0, devices),
        s.last_discrepancy is Some ==> path_before(s.address, run(s, devices).1->Ok_0.0),
        forall|d: u64|
            #![trigger devices.contains(d)]
            devices.contains(d) && (s.last_discrepancy is Some ==> path_before(s.address, d))
                ==> d == run(s, devices).1->Ok_0.0 || path_before(run(s, devices).1->Ok_0.0, d),
{
    let (commanded, _) = s.step(answer(devices, s));
    let (probing, _) = commanded.step(answer(devices, commanded));
    assert(run(s, devices) == run(commanded, devices));
    assert(run(commanded, devices) == run(probing, devices));
    assert(devices =~= survivors(devices, s.address, 0));
    assert(on_course(probing, devices, devices));
    lemma_run_on_course(probing, devices, devices);
    let end = run(probing, devices);
    let found = end.1->Ok_0.0;
    assert(end.0 == s.committed(found, end.0.last_discrepancy));
    if let Some(turn) = s.last_discrepancy {
        assert(agree_below(s.address, found, turn));
        assert(turn < 64 && agree_below(s.address, found, turn) && !word_bit(s.address, turn)
            && word_bit(found, turn));
    }
    assert forall|d: u64|
        #![trigger devices.contains(d)]
        devices.contains(d) && (s.last_discrepancy is Some ==> path_before(s.address, d))
            implies d == found || path_before(found, d) by {
        match s.last_discrepancy {
            None => {
                assert(ahead(devices, s.address, s.last_discrepancy, d));
            },
            Some(turn) => {
                let n = choose|n: u8|
                    n < 64 && agree_below(s.address, d, n) && !word_bit(s.address, n) && word_bit(
                        d,
                        n,
                    );
                assert(agree_below(d, s.address, n));
                assert(open_at(devices, s.address, n));
                assert(n <= turn);
                if n == turn {
                    assert(ahead(devices, s.address, s.last_discrepancy, d));
                } else {
                    assert(agree_below(found, d, n));
                    assert(n < 64 && agree_below(found, d, n) && !word_bit(found, n) && word_bit(
                        d,
                        n,
                    ));
                }
            },
        }
    }
}

/// A search is complete exactly when no device of the bus comes after the
/// one it found last.
pub proof fn lemma_complete_at_the_last(s: SearchState, devices: Set<u64>, d: u64)
    requires
        tracks(s, devices),
        s.complete || s.last_discrepancy is Some,
        devices.contains(d),
    ensures
        s.complete ==> !path_before(s.address, d),
        !s.complete ==> exists|w: u64| devices.contains(w) && path_before(s.address, w),
{
    if s.complete {
        if path_before(s.address, d) {
            let n = choose|n: u8|
                n < 64 && agree_below(s.address, d, n) && !word_bit(s.address, n) && word_bit(d, n);
            assert(agree_below(d, s.address, n));
            assert(open_at(devices, s.address, n));
        }
    } else {
        let t = s.last_discrepancy->Some_0;
        let w = choose|w: u64|
            devices.contains(w) && agree_below(w, s.address, t) && word_bit(w, t);
        assert(agree_below(s.address, w, t));
        assert(t < 64 && agree_below(s.address, w, t) && !word_bit(s.address, t) && word_bit(w, t));
    }
}

/// On a bus with a single device, the first pass of a search with no place
/// fixed yields that device and completes the search; from then on the search
/// answers every reply with the end of the search and stays as it is.
pub proof fn lemma_single_device(s: SearchState, device: u64, reply: Reply)
    requires
        tracks(s, set![device]),
        !s.complete,
    ensures
        run(s, set![device]) == (
            s.committed(device, None),
            Ok::<Address, SearchError>(Address(device)),
        ),
        s.committed(device, None).complete,
        s.committed(device, None).step(reply) == (
            s.committed(device, None),
            Step::Done(Err::<Address, SearchError>(SearchError::SearchComplete)),
        ),
{
    let devices = set![device];
    assert(devices.contains(device));
    lemma_pass_finds_next(s, devices);
    let end = run(s, devices);
    if let Some(zero) = end.0.last_discrepancy {
        let w = choose|w: u64|
            devices.contains(w) && agree_below(w, device, zero) && word_bit(w, zero);
        assert(w == device);
    }
}

/// On a bus without devices a pass ends at the reset: the search asks for
/// nothing more, reports that no device is present, and stays as it is.
pub proof fn lemma_empty_bus(s: SearchState)
    requires
        s.valid(),
        s.cursor is Ready,
        !s.complete,
    ensures
        s.pending() == Step::Ask(crate::search::Request::Reset),
        run(s, Set::<u64>::empty()) == (
            s,
            Err::<Address, SearchError>(SearchError::NoDevicesPresent),
        ),
{
    assert(!occupied(Set::<u64>::empty()));
}

/// The first conflict that a search with no place fixed ever meets is
/// answered with zero, and its place is kept as the place to turn at.
pub proof fn lemma_first_conflict(s: SearchState)
    requires
        s.valid(),
        !s.complete,
        s.mask == 0,
        s.last_discrepancy is None,
        s.cursor is Probe,
    ensures
        ({
            let (next, step) = s.step(Reply::Pair(false, false));
            &&& step == Step::Ask(crate::search::Request::WriteBit(false))
            &&& next.cursor matches Cursor::Select { position, last_zero, direction, .. }
            &&& Some(position) == last_zero
            &&& !direction
            &&& s.cursor matches Cursor::Probe { position: at, .. } && at == position
        }),
{
    let position = s.cursor->Probe_position;
    lemma_zero_word(position);
}

/// The search after `n` passes over the bus `devices`, each started right
/// after the one before.
pub open spec fn after_passes(s: SearchState, devices: Set<u64>, n: nat) -> SearchState
    decreases n,
{
    if n == 0 {
        s
    } else {
        run(after_passes(s, devices, (n - 1) as nat), devices).0
    }
}

/// The result of the pass that follows `n` earlier ones.
pub open spec fn pass_result(s: SearchState, devices: Set<u64>, n: nat) -> Result<
    Address,
    SearchError,
> {
    run(after_passes(s, devices, n), devices).1
}

/// Whether one of the first `n` passes has reported the device `d`.
pub open spec fn reported(s: SearchState, devices: Set<u64>, n: nat, d: u64) -> bool {
    exists|i: nat| i < n && #[trigger] pass_result(s, devices, i) == Ok::<Address, SearchError>(
        Address(d),
    )
}

/// The devices that the first `n` passes have reported.
pub open spec fn found_so_far(s: SearchState, devices: Set<u64>, n: nat) -> Set<u64>
    decreases n,
{
    if n == 0 {
        Set::empty()
    } else {
        found_so_far(s, devices, (n - 1) as nat).insert(
            pass_result(s, devices, (n - 1) as nat)->Ok_0.0,
        )
    }
}

proof fn lemma_passes_track(s: SearchState, devices: Set<u64>, n: nat)
    requires
        tracks(s, devices),
        occupied(devices),
    ensures
        tracks(after_passes(s, devices, n), devices),
        n >= 1 && !after_passes(s, devices, n).complete ==> !after_passes(
            s,
            devices,
            (n - 1) as nat,
        ).complete,
        n >= 1 && !after_passes(s, devices, (n - 1) as nat).complete ==> {
            &&& pass_result(s, devices, (n - 1) as nat) matches Ok(found)
            &&& devices.contains(found.0)
            &&& after_passes(s, devices, n).address == found.0
            &&& after_passes(s, devices, n).complete || after_passes(
                s,
                devices,
                n,
            ).last_discrepancy is Some
        },
    decreases n,
{
    if n >= 1 {
        let before = after_passes(s, devices, (n - 1) as nat);
        lemma_passes_track(s, devices, (n - 1) as nat);
        if !before.complete {
            lemma_pass_finds_next(before, devices);
        }
    }
}

/// On a bus that holds at least one device and does not change, the passes
/// of a search with no place fixed report devices of the bus, each further on
/// the way through the tree than every one before: no device is reported
/// twice.
pub proof fn lemma_passes_ascend(s: SearchState, devices: Set<u64>, i: nat, j: nat)
    requires
        tracks(s, devices),
        occupied(devices),
        i < j,
        !after_passes(s, devices, j).complete,
    ensures
        pass_result(s, devices, i) matches Ok(earlier) && devices.contains(earlier.0),
        pass_result(s, devices, j) matches Ok(later) && devices.contains(later.0),
        path_before(pass_result(s, devices, i)->Ok_0.0, pass_result(s, devices, j)->Ok_0.0),
        pass_result(s, devices, i)->Ok_0 != pass_result(s, devices, j)->Ok_0,
    decreases j - i,
{
    let at_j = after_passes(s, devices, j);
    lemma_passes_track(s, devices, j);
    lemma_passes_track(s, devices, j + 1);
    lemma_pass_finds_next(at_j, devices);
    let earlier = pass_result(s, devices, (j - 1) as nat)->Ok_0.0;
    let later = pass_result(s, devices, j)->Ok_0.0;
    assert(at_j.address == earlier);
    assert(path_before(earlier, later));
    if i + 1 < j {
        lemma_passes_ascend(s, devices, i, (j - 1) as nat);
        let first = pass_result(s, devices, i)->Ok_0.0;
        lemma_path_before_orders(first, earlier, later);
    }
    lemma_path_before_orders(pass_result(s, devices, i)->Ok_0.0, later, later);
}

/// After a pass, every device of the bus up to the one just found has been
/// reported.
proof fn lemma_passes_cover(s: SearchState, devices: Set<u64>, n: nat, d: u64)
    requires
        tracks(s, devices),
        s.last_discrepancy is None,
        occupied(devices),
        n >= 1,
        !after_passes(s, devices, (n - 1) as nat).complete,
        devices.contains(d),
        d == after_passes(s, devices, n).address || path_before(
            d,
            after_passes(s, devices, n).address,
        ),
    ensures
        reported(s, devices, n, d),
    decreases n,
{
    let before = after_passes(s, devices, (n - 1) as nat);
    let found = after_passes(s, devices, n).address;
    lemma_passes_track(s, devices, n);
    lemma_passes_track(s, devices, (n - 1) as nat);
    lemma_pass_finds_next(before, devices);
    assert(pass_result(s, devices, (n - 1) as nat) == Ok::<Address, SearchError>(Address(found)));
    if d == found {
        assert(reported(s, devices, n, d));
    } else {
        // `d` comes before the device just found, so it is not beyond it.
        lemma_path_before_orders(d, found, d);
        assert(!path_before(found, d));
        if n == 1 {
            assert(before == s);
            assert(false);
        } else {
            let prior = before.address;
            lemma_path_before_total(d, prior);
            assert(before.last_discrepancy is Some);
            if path_before(prior, d) {
                assert(false);
            }
            lemma_passes_cover(s, devices, (n - 1) as nat, d);
            let i = choose|i: nat|
                i < n - 1 && #[trigger] pass_result(s, devices, i) == Ok::<Address, SearchError>(
                    Address(d),
                );
            assert(i < n);
        }
    }
}

/// No device is left out: when a search that started afresh on a bus that
/// does not change has become complete, every device of the bus has been
/// reported by one of its passes.
pub proof fn lemma_no_omissions(s: SearchState, devices: Set<u64>, n: nat, d: u64)
    requires
        tracks(s, devices),
        !s.complete,
        s.last_discrepancy is None,
        occupied(devices),
        after_passes(s, devices, n).complete,
        devices.contains(d),
    ensures
        reported(s, devices, n, d),
    decreases n,
{
    if n >= 1 {
        let before = after_passes(s, devices, (n - 1) as nat);
        if before.complete {
            lemma_no_omissions(s, devices, (n - 1) as nat, d);
            let i = choose|i: nat|
                i < n - 1 && #[trigger] pass_result(s, devices, i) == Ok::<Address, SearchError>(
                    Address(d),
                );
            assert(i < n);
        } else {
            let last = after_passes(s, devices, n);
            lemma_passes_track(s, devices, n);
            lemma_complete_at_the_last(last, devices, d);
            lemma_path_before_total(d, last.address);
            lemma_passes_cover(s, devices, n, d);
        }
    }
}

proof fn lemma_found_so_far(s: SearchState, devices: Set<u64>, n: nat)
    requires
        tracks(s, devices),
        occupied(devices),
        n >= 1 ==> !after_passes(s, devices, (n - 1) as nat).complete,
    ensures
        found_so_far(s, devices, n).finite(),
        found_so_far(s, devices, n).len() == n,
        found_so_far(s, devices, n).subset_of(devices),
        forall|x: u64| #[trigger]
            found_so_far(s, devices, n).contains(x) ==> reported(s, devices, n, x),
    decreases n,
{
    if n >= 1 {
        let m = (n - 1) as nat;
        let found = pass_result(s, devices, m)->Ok_0.0;
        lemma_passes_track(s, devices, n);
        lemma_passes_track(s, devices, m);
        lemma_found_so_far(s, devices, m);
        let earlier = found_so_far(s, devices, m);
        assert(!earlier.contains(found)) by {
            if earlier.contains(found) {
                let i = choose|i: nat|
                    i < m && #[trigger] pass_result(s, devices, i) == Ok::<Address, SearchError>(
                        Address(found),
                    );
                lemma_passes_ascend(s, devices, i, m);
            }
        }
        assert forall|x: u64| #[trigger] found_so_far(s, devices, n).contains(x) implies reported(
            s,
            devices,
            n,
            x,
        ) by {
            if x == found {
                assert(pass_result(s, devices, m) == Ok::<Address, SearchError>(Address(x)));
            } else {
                let i = choose|i: nat|
                    i < m && #[trigger] pass_result(s, devices, i) == Ok::<Address, SearchError>(
                        Address(x),
                    );
                assert(i < n);
            }
        }
    }
}

/// On a bus that holds finitely many devices and does not change, every
/// search comes to an end: it is complete after as many passes as there are
/// devices, at the most.
pub proof fn lemma_search_ends(s: SearchState, devices: Set<u64>)
    requires
        tracks(s, devices),
        occupied(devices),
        devices.finite(),
    ensures
        after_passes(s, devices, devices.len()).complete,
{
    let n = devices.len();
    if !after_passes(s, devices, n).complete {
        lemma_found_so_far(s, devices, n + 1);
        lemma_len_subset(found_so_far(s, devices, n + 1), devices);
    }
}

} // verus!
