//! Requests of the load generator: times, partitions, frames in flight.

use vstd::prelude::*;
use vstd::utf8::encode_utf8;

use crate::docker_time::{
    ascii_fraction_nanos, civil_fields, date_shape, days_from_civil, formula_days, parse_digits,
    ten_to, zone_nanos, CivilTime, TimestampFault,
};
use crate::query_settings::first_of;
use crate::sizes::{complain_number, is_word, number_complaint, number_of, read_number};
use crate::text::{characters, decimal, lowercase, push_decimal, to_lowercase, trim, trimmed};

verus! {

/// Nanoseconds of a whole number of days and a time of day.
pub open spec fn clock_nanos(days: int, time: CivilTime, fraction: nat) -> int {
    (days * 86_400 + time.hour * 3_600 + time.minute * 60 + time.second) * 1_000_000_000 + fraction
}

/// The time that a load timestamp gives, or what is said of it.
pub open spec fn load_time(input: Seq<char>) -> Result<nat, Seq<char>> {
    let bytes = encode_utf8(input);
    if bytes.len() < 20 || !date_shape(bytes) {
        Err("unsupported Docker timestamp: "@ + input)
    } else {
        match civil_fields(bytes) {
            None => Err("timestamp contains a non-digit"@),
            Some(time) => match zone_nanos(bytes.skip(19)) {
                Err(TimestampFault::NonDigit) => Err("timestamp contains a non-digit"@),
                Err(_) => Err("unsupported Docker timestamp timezone: "@ + input),
                Ok(fraction) => {
                    let days = formula_days(time.year as int, time.month as int, time.day as int);
                    if days < 0 || time.hour >= 24 || time.minute >= 60 || time.second >= 60 {
                        Err("invalid Docker timestamp: "@ + input)
                    } else if clock_nanos(days, time, fraction) > u64::MAX {
                        Err("timestamp nanoseconds overflow"@)
                    } else {
                        Ok(clock_nanos(days, time, fraction) as nat)
                    }
                },
            },
        }
    }
}

fn with_input(words: &str, input: &str) -> (text: String)
    ensures
        text@ == words@ + input@,
{
    let mut text = words.to_owned();
    text.append(input);
    text
}

fn read_zone(rest: &[u8]) -> (nanos: Result<u64, bool>)
    ensures
        match nanos {
            Ok(nanos) => zone_nanos(rest@) == Ok::<nat, TimestampFault>(nanos as nat) && nanos
                < 1_000_000_000,
            Err(digits) => match zone_nanos(rest@) {
                Ok(_) => false,
                Err(TimestampFault::NonDigit) => digits,
                Err(_) => !digits,
            },
        },
{
    let length = rest.len();
    if length == 1 && rest[0] == 0x5a {
        return Ok(0);
    }
    if length < 3 || length > 11 || rest[0] != 0x2e || rest[length - 1] != 0x5a {
        return Err(false);
    }
    match ascii_fraction_nanos(vstd::slice::slice_subrange(rest, 1, length - 1)) {
        Some(nanos) => Ok(nanos),
        None => Err(true),
    }
}

/// Reads the time of a load record.
pub fn parse_load_timestamp(input: &str) -> (nanos: Result<u64, String>)
    ensures
        match nanos {
            Ok(nanos) => load_time(input@) == Ok::<nat, Seq<char>>(nanos as nat),
            Err(text) => load_time(input@) == Err::<nat, Seq<char>>(text@),
        },
{
    let bytes = input.as_bytes();
    if bytes.len() < 20 || bytes[4] != 0x2d || bytes[7] != 0x2d || bytes[10] != 0x54 || bytes[13]
        != 0x3a || bytes[16] != 0x3a {
        return Err(with_input("unsupported Docker timestamp: ", input));
    }
    proof {
        assert(ten_to(4) == 10_000 && ten_to(2) == 100) by {
            reveal_with_fuel(ten_to, 5);
        }
    }
    let year = parse_digits(bytes, 0, 4);
    let month = parse_digits(bytes, 5, 7);
    let day = parse_digits(bytes, 8, 10);
    let hour = parse_digits(bytes, 11, 13);
    let minute = parse_digits(bytes, 14, 16);
    let second = parse_digits(bytes, 17, 19);
    if year.is_none() || month.is_none() || day.is_none() || hour.is_none() || minute.is_none()
        || second.is_none() {
        return Err("timestamp contains a non-digit".to_owned());
    }
    let (year, month, day) = (year.unwrap(), month.unwrap(), day.unwrap());
    let (hour, minute, second) = (hour.unwrap(), minute.unwrap(), second.unwrap());
    let rest = vstd::slice::slice_subrange(bytes, 19, bytes.len());
    assert(rest@ =~= bytes@.skip(19));
    let fraction = match read_zone(rest) {
        Ok(fraction) => fraction,
        Err(true) => {
            return Err("timestamp contains a non-digit".to_owned());
        },
        Err(false) => {
            return Err(with_input("unsupported Docker timestamp timezone: ", input));
        },
    };
    let days = days_from_civil(year as i64, month as u32, day as u32);
    if days < 0 || hour >= 24 || minute >= 60 || second >= 60 {
        return Err(with_input("invalid Docker timestamp: ", input));
    }
    let seconds = days as u64 * 86_400 + hour * 3_600 + minute * 60 + second;
    match seconds.checked_mul(1_000_000_000) {
        None => Err("timestamp nanoseconds overflow".to_owned()),
        Some(whole) => match whole.checked_add(fraction) {
            None => Err("timestamp nanoseconds overflow".to_owned()),
            Some(nanos) => Ok(nanos),
        },
    }
}

/// The entries of a partition: every one whose place leaves its number.
pub open spec fn dealt(count: nat, partitions: nat, partition: nat) -> Seq<usize>
    decreases count,
{
    if count == 0 {
        Seq::empty()
    } else {
        let place = (count - 1) as nat;
        let earlier = dealt(place, partitions, partition);
        if place % partitions == partition {
            earlier.push(place as usize)
        } else {
            earlier
        }
    }
}

/// Deals entries out to partitions in turn.
pub fn deal_entries(count: usize, partitions: usize) -> (hands: Vec<Vec<usize>>)
    requires
        partitions > 0,
    ensures
        hands@.len() == partitions,
        forall|partition: int|
            0 <= partition < partitions ==> (#[trigger] hands@[partition])@ == dealt(
                count as nat,
                partitions as nat,
                partition as nat,
            ),
{
    let mut hands: Vec<Vec<usize>> = Vec::new();
    while hands.len() < partitions
        invariant
            hands@.len() <= partitions,
            forall|partition: int|
                0 <= partition < hands@.len() ==> (#[trigger] hands@[partition])@ == dealt(
                    0,
                    partitions as nat,
                    partition as nat,
                ),
        decreases partitions - hands@.len(),
    {
        let hand: Vec<usize> = Vec::new();
        assert(hand@ =~= Seq::<usize>::empty());
        hands.push(hand);
    }
    let mut place: usize = 0;
    while place < count
        invariant
            place <= count,
            partitions > 0,
            hands@.len() == partitions,
            forall|partition: int|
                0 <= partition < partitions ==> (#[trigger] hands@[partition])@ == dealt(
                    place as nat,
                    partitions as nat,
                    partition as nat,
                ),
        decreases count - place,
    {
        let partition = place % partitions;
        let ghost before = hands@;
        hands[partition].push(place);
        proof {
            assert forall|other: int| 0 <= other < partitions implies (#[trigger] hands@[other])@
                == dealt((place + 1) as nat, partitions as nat, other as nat) by {
                assert(before[other]@ == dealt(place as nat, partitions as nat, other as nat));
                if other != partition {
                    assert(hands@[other] == before[other]);
                }
            }
        }
        place = place + 1;
    }
    hands
}

/// Requests on a connection that were not answered yet.
#[derive(Debug)]
pub struct PendingRequests {
    /// Their numbers.
    pub ids: Vec<u128>,
}

impl PendingRequests {
    /// None.
    pub fn new() -> (pending: Self)
        ensures
            pending.ids@ == Seq::<u128>::empty(),
    {
        Self { ids: Vec::new() }
    }

    /// Notes a request.
    pub fn note(&mut self, id: u128)
        ensures
            final(self).ids@ == old(self).ids@.push(id),
    {
        self.ids.push(id);
    }

    /// Takes the first request with the number of an answer out.
    pub fn settle(&mut self, id: u128) -> (settled: Result<(), String>)
        ensures
            match settled {
                Ok(_) => old(self).ids@.contains(id) && final(self).ids@.to_multiset() == old(self).ids@.to_multiset().remove(id),
                Err(text) => !old(self).ids@.contains(id) && final(self).ids@ == old(self).ids@
                    && text@ == "native push returned unknown request id "@ + decimal(id as nat),
            },
    {
        let mut index: usize = 0;
        while index < self.ids.len()
            invariant
                index <= self.ids@.len(),
                *self == *old(self),
                forall|i: int| 0 <= i < index ==> self.ids@[i] != id,
            decreases self.ids@.len() - index,
        {
            if self.ids[index] == id {
                let ghost before = self.ids@;
                let last = self.ids.len() - 1;
                let moved = self.ids[last];
                self.ids.set(index, moved);
                let ghost swapped = self.ids@;
                self.ids.pop();
                proof {
                    broadcast use vstd::seq_lib::group_to_multiset_ensures;

                    assert(before[index as int] == id);
                    if index == last {
                        assert(swapped =~= before);
                        assert(self.ids@ =~= before.remove(index as int));
                    } else {
                        assert(swapped =~= before.update(index as int, before[last as int]));
                        assert(self.ids@ =~= before.drop_last().update(
                            index as int,
                            before[last as int],
                        ));
                        let shorter = before.drop_last();
                        assert(before =~= shorter.push(before[last as int]));
                        assert(shorter.update(index as int, before[last as int]).remove(
                            index as int,
                        ) =~= shorter.remove(index as int));
                        let without = shorter.remove(index as int);
                        assert(shorter.to_multiset().remove(id) == without.to_multiset());
                        assert(self.ids@.to_multiset().remove(before[last as int])
                            == without.to_multiset());
                        assert(shorter.to_multiset() =~= without.to_multiset().insert(id));
                        assert(self.ids@.to_multiset() =~= without.to_multiset().insert(
                            before[last as int],
                        ));
                        assert(before.to_multiset() =~= shorter.to_multiset().insert(
                            before[last as int],
                        ));
                    }
                    assert(self.ids@.to_multiset() =~= before.to_multiset().remove(id));
                }
                return Ok(());
            }
            index = index + 1;
        }
        let mut text = "native push returned unknown request id ".to_owned();
        push_decimal(&mut text, id);
        Err(text)
    }
}

/// Checks how many partitions an answer acknowledges.
pub fn check_acknowledgement(acknowledged: usize, partitions: usize) -> (verdict: Result<(), String>)
    ensures
        match verdict {
            Ok(_) => 0 < acknowledged <= partitions,
            Err(text) => !(0 < acknowledged <= partitions) && text@
                == "native append returned an unexpected partition count"@,
        },
{
    if acknowledged == 0 || acknowledged > partitions {
        Err("native append returned an unexpected partition count".to_owned())
    } else {
        Ok(())
    }
}

/// The body of a push request in front of its values.
pub open spec fn push_prefix(source: Seq<char>) -> Seq<char> {
    "{\"streams\":[{\"stream\":{\"source\":\""@ + source + "\"},\"values\":["@
}

/// A push request.
pub open spec fn push_request(
    host: Seq<char>,
    tenant: Seq<char>,
    request_id: nat,
    source: Seq<char>,
    values: Seq<char>,
) -> Seq<char> {
    let body = push_prefix(source) + values + "]}]}"@;
    "POST /loki/api/v1/push HTTP/1.1\r\nHost: "@ + host
        + "\r\nContent-Type: application/json\r\nX-Scope-OrgID: "@ + tenant
        + "\r\nX-ShardTelemetry-Request-ID: "@ + decimal(request_id) + "\r\nContent-Length: "@
        + decimal(encode_utf8(body).len()) + "\r\nConnection: keep-alive\r\n\r\n"@ + body
}

/// Writes a push request, and counts the bytes of its body.
pub fn render_push_request(host: &str, tenant: &str, request_id: u64, source: &str, values: &str) -> (request:
    (String, usize))
    ensures
        request.0@ == push_request(host@, tenant@, request_id as nat, source@, values@),
        request.1 == encode_utf8(push_prefix(source@) + values@ + "]}]}"@).len(),
{
    let mut body = "{\"streams\":[{\"stream\":{\"source\":\"".to_owned();
    body.append(source);
    body.append("\"},\"values\":[");
    body.append(values);
    body.append("]}]}");
    assert(body@ =~= push_prefix(source@) + values@ + "]}]}"@);
    let length = body.as_str().as_bytes().len();
    let mut request = "POST /loki/api/v1/push HTTP/1.1\r\nHost: ".to_owned();
    request.append(host);
    request.append("\r\nContent-Type: application/json\r\nX-Scope-OrgID: ");
    request.append(tenant);
    request.append("\r\nX-ShardTelemetry-Request-ID: ");
    push_decimal(&mut request, request_id as u128);
    request.append("\r\nContent-Length: ");
    push_decimal(&mut request, length as u128);
    request.append("\r\nConnection: keep-alive\r\n\r\n");
    request.append(body.as_str());
    (request, length)
}

/// Whether a status line accepts a push.
pub open spec fn accepts(status: Seq<char>) -> bool {
    "HTTP/1.1 204"@.is_prefix_of(status) || "HTTP/1.1 200"@.is_prefix_of(status)
}

fn starts_with_text(text: &[char], words: &str) -> (starts: bool)
    ensures
        starts == words@.is_prefix_of(text@),
{
    let expected = characters(words);
    if text.len() < expected.len() {
        return false;
    }
    let mut index: usize = 0;
    while index < expected.len()
        invariant
            expected@ == words@,
            index <= expected@.len() <= text@.len(),
            forall|i: int| 0 <= i < index ==> text@[i] == words@[i],
        decreases expected@.len() - index,
    {
        if text[index] != expected[index] {
            assert(text@[index as int] != words@[index as int]);
            return false;
        }
        index = index + 1;
    }
    assert(words@ =~= text@.subrange(0, words@.len() as int));
    true
}

/// The length of the body that a header line gives, where it is the line that
/// gives it.
pub open spec fn header_length(header: Seq<char>) -> Result<Option<nat>, Seq<char>> {
    let place = first_of(header, ':');
    if place < header.len() && lowercase(header.take(place)) == "content-length"@ {
        match number_of(trimmed(header.skip(place + 1)), usize::MAX as nat) {
            Ok(length) => Ok(Some(length)),
            Err(fault) => Err(number_complaint(fault)),
        }
    } else {
        Ok(None)
    }
}

/// Reads the length of the body that a header line gives, where it is the line
/// that gives it.
pub fn content_length(header: &str) -> (length: Result<Option<usize>, String>)
    ensures
        match length {
            Ok(None) => header_length(header@) == Ok::<Option<nat>, Seq<char>>(None),
            Ok(Some(length)) => header_length(header@) == Ok::<Option<nat>, Seq<char>>(
                Some(length as nat),
            ),
            Err(text) => header_length(header@) == Err::<Option<nat>, Seq<char>>(text@),
        },
{
    let all = characters(header);
    let mut place: usize = 0;
    assert(header@.skip(0) =~= header@);
    while place < all.len() && all[place] != ':'
        invariant
            all@ == header@,
            place <= all@.len(),
            first_of(header@, ':') == place + first_of(header@.skip(place as int), ':'),
        decreases all@.len() - place,
    {
        assert(header@.skip(place as int)[0] == header@[place as int]);
        assert(header@.skip(place as int).drop_first() =~= header@.skip(place + 1));
        place = place + 1;
    }
    if place == all.len() {
        return Ok(None);
    }
    assert(header@.skip(place as int)[0] == ':');
    let name = vstd::slice::slice_subrange(all.as_slice(), 0, place);
    assert(name@ =~= header@.take(place as int));
    if !is_word(to_lowercase(name).as_slice(), "content-length") {
        return Ok(None);
    }
    let value = vstd::slice::slice_subrange(all.as_slice(), place + 1, all.len());
    assert(value@ =~= header@.skip(place + 1));
    match read_number(trim(value), usize::MAX as u64) {
        Ok(length) => Ok(Some(length as usize)),
        Err(fault) => Err(complain_number(fault)),
    }
}

/// Whether a status line accepts a push.
pub fn is_accepted(status: &str) -> (accepted: bool)
    ensures
        accepted == accepts(status@),
{
    let line = characters(status);
    starts_with_text(line.as_slice(), "HTTP/1.1 204") || starts_with_text(
        line.as_slice(),
        "HTTP/1.1 200",
    )
}

} // verus!
