//! Logical deletion requests of each tenant.

use vstd::prelude::*;

use crate::digest::{blake3_digest, blake3_hash};
use crate::error::{ApiErrorKind, LokiApiError};
use crate::string_map::{is_before, key_order_is_total, key_precedes};
use crate::text::{
    decimal, hex_fixed, hex_nibble, nibble, push_decimal, push_hex, same_str,
};

verus! {

/// Version of the persisted catalog.
pub const DELETE_CATALOG_VERSION: u32 = 1;

/// One durable Loki-compatible logical deletion request.
#[derive(Debug, PartialEq, Eq)]
pub struct DeleteRequest {
    /// Stable monotonically allocated hexadecimal request ID.
    pub request_id: String,
    /// Inclusive lower timestamp bound in Unix nanoseconds.
    pub start_time: i64,
    /// Inclusive upper timestamp bound in Unix nanoseconds.
    pub end_time: i64,
    /// Validated LogQL stream selector and line-filter expression.
    pub query: String,
    /// Lifecycle state exposed through the Loki API.
    pub status: String,
    /// Request creation time in Unix nanoseconds.
    pub created_at: i64,
}

impl DeleteRequest {
    /// Another request with the same content.
    pub fn copy(&self) -> (request: Self)
        ensures
            request == *self,
    {
        Self {
            request_id: self.request_id.clone(),
            start_time: self.start_time,
            end_time: self.end_time,
            query: self.query.clone(),
            status: self.status.clone(),
            created_at: self.created_at,
        }
    }

    /// Whether a replicated request may be taken over.
    pub open spec fn admissible(self) -> bool {
        &&& self.request_id@.len() > 0
        &&& self.start_time <= self.end_time
        &&& self.status@ == "received"@ || self.status@ == "canceled"@
    }

    fn is_admissible(&self) -> (admissible: bool)
        ensures
            admissible == self.admissible(),
    {
        !self.request_id.as_str().is_empty() && self.start_time <= self.end_time && (same_str(
            self.status.as_str(),
            "received",
        ) || same_str(self.status.as_str(), "canceled"))
    }
}

/// Deletion requests of one tenant.
#[derive(Debug, PartialEq, Eq)]
pub struct TenantDeletes {
    /// Tenant of the requests.
    pub tenant: String,
    /// Its requests.
    pub requests: Vec<DeleteRequest>,
}

/// Deletion requests of every tenant.
#[derive(Debug, PartialEq, Eq)]
pub struct DeleteState {
    /// Number of the next request.
    pub next_request_id: u64,
    /// Requests of each tenant.
    pub tenants: Vec<TenantDeletes>,
}

/// The requests of one tenant.
pub open spec fn requests_among(tenants: Seq<TenantDeletes>, tenant: Seq<char>) -> Seq<DeleteRequest>
    decreases tenants.len(),
{
    if tenants.len() == 0 {
        Seq::empty()
    } else if tenants.last().tenant@ == tenant {
        tenants.last().requests@
    } else {
        requests_among(tenants.drop_last(), tenant)
    }
}

/// Requests but for those with one ID.
pub open spec fn without_request(requests: Seq<DeleteRequest>, request_id: Seq<char>) -> Seq<DeleteRequest>
    decreases requests.len(),
{
    if requests.len() == 0 {
        Seq::empty()
    } else if requests.last().request_id@ == request_id {
        without_request(requests.drop_last(), request_id)
    } else {
        without_request(requests.drop_last(), request_id).push(requests.last())
    }
}

/// Whether requests are in the order of their IDs, each ID once.
pub open spec fn in_id_order(requests: Seq<DeleteRequest>) -> bool {
    forall|i: int, j: int|
        0 <= i < j < requests.len() ==> key_precedes(
            (#[trigger] requests[i]).request_id@,
            (#[trigger] requests[j]).request_id@,
        )
}

/// The value of hexadecimal digits.
pub open spec fn hex_digits_value(bytes: Seq<u8>) -> Option<nat>
    decreases bytes.len(),
{
    if bytes.len() == 0 {
        Some(0)
    } else {
        match (hex_digits_value(bytes.drop_last()), nibble(bytes.last())) {
            (Some(value), Some(digit)) => Some(value * 16 + digit as nat),
            _ => None,
        }
    }
}

/// The number that hexadecimal text stands for, where it fits 64 bits.
pub open spec fn hex_number(bytes: Seq<u8>) -> Option<nat> {
    let digits = if bytes.len() > 0 && bytes[0] == 0x2b {
        bytes.skip(1)
    } else {
        bytes
    };
    match hex_digits_value(digits) {
        Some(value) => if digits.len() > 0 && value <= u64::MAX {
            Some(value)
        } else {
            None
        },
        None => None,
    }
}

/// The largest number among request IDs, where any is a number.
pub open spec fn largest_id(requests: Seq<DeleteRequest>) -> Option<nat>
    decreases requests.len(),
{
    if requests.len() == 0 {
        None
    } else {
        let before = largest_id(requests.drop_last());
        match hex_number(vstd::utf8::encode_utf8(requests.last().request_id@)) {
            None => before,
            Some(number) => match before {
                Some(largest) => if largest >= number {
                    before
                } else {
                    Some(number)
                },
                None => Some(number),
            },
        }
    }
}

/// The request number after the largest of these.
pub open spec fn id_after(requests: Seq<DeleteRequest>) -> nat {
    match largest_id(requests) {
        Some(largest) => if largest < u64::MAX {
            largest + 1
        } else {
            1
        },
        None => 1,
    }
}

impl DeleteState {
    /// The requests of one tenant.
    pub open spec fn requests_for(&self, tenant: Seq<char>) -> Seq<DeleteRequest> {
        requests_among(self.tenants@, tenant)
    }

    /// Whether other tenants have what they had before.
    pub open spec fn differs_only_for(&self, before: &Self, tenant: Seq<char>) -> bool {
        forall|other: Seq<char>|
            other != tenant ==> #[trigger] self.requests_for(other) == before.requests_for(other)
    }

    /// A catalog without requests.
    pub fn new() -> (state: Self)
        ensures
            state.next_request_id == 1,
            forall|tenant: Seq<char>| #[trigger]
                state.requests_for(tenant) == Seq::<DeleteRequest>::empty(),
    {
        Self { next_request_id: 1, tenants: Vec::new() }
    }

    /// The requests of one tenant.
    pub fn list(&self, tenant: &str) -> (requests: Vec<DeleteRequest>)
        ensures
            requests@ == self.requests_for(tenant@),
    {
        let mut next = self.tenants.len();
        assert(self.tenants@.take(next as int) =~= self.tenants@);
        while next > 0
            invariant
                next <= self.tenants@.len(),
                requests_among(self.tenants@, tenant@) == requests_among(
                    self.tenants@.take(next as int),
                    tenant@,
                ),
            decreases next,
        {
            let entry = &self.tenants[next - 1];
            assert(self.tenants@.take(next as int).drop_last() =~= self.tenants@.take(next - 1));
            assert(self.tenants@.take(next as int).last() == *entry);
            if same_str(entry.tenant.as_str(), tenant) {
                return copy_requests(&entry.requests);
            }
            next = next - 1;
        }
        Vec::new()
    }

    /// The state in which a tenant has these requests and no others.
    fn with_requests(&self, next_request_id: u64, tenant: &str, requests: Vec<DeleteRequest>) -> (state:
        Self)
        ensures
            state.next_request_id == next_request_id,
            state.requests_for(tenant@) == requests@,
            state.differs_only_for(self, tenant@),
    {
        let mut tenants: Vec<TenantDeletes> = Vec::new();
        let mut next: usize = 0;
        while next < self.tenants.len()
            invariant
                next <= self.tenants@.len(),
                requests_among(tenants@, tenant@) == Seq::<DeleteRequest>::empty(),
                forall|other: Seq<char>|
                    other != tenant@ ==> #[trigger] requests_among(tenants@, other)
                        == requests_among(self.tenants@.take(next as int), other),
            decreases self.tenants@.len() - next,
        {
            let entry = &self.tenants[next];
            let ghost before = tenants@;
            assert(self.tenants@.take(next + 1).drop_last() =~= self.tenants@.take(next as int));
            assert(self.tenants@.take(next + 1).last() == *entry);
            if !same_str(entry.tenant.as_str(), tenant) {
                tenants.push(
                    TenantDeletes {
                        tenant: entry.tenant.clone(),
                        requests: copy_requests(&entry.requests),
                    },
                );
                assert(tenants@.drop_last() =~= before);
                assert(tenants@.last().tenant@ == entry.tenant@);
            }
            proof {
                assert forall|other: Seq<char>| other != tenant@ implies #[trigger] requests_among(
                    tenants@,
                    other,
                ) == requests_among(self.tenants@.take(next + 1), other) by {
                    assert(requests_among(before, other) == requests_among(
                        self.tenants@.take(next as int),
                        other,
                    ));
                }
            }
            next = next + 1;
        }
        assert(self.tenants@.take(next as int) =~= self.tenants@);
        let ghost before = tenants@;
        let ghost given = requests@;
        if requests.len() > 0 {
            tenants.push(TenantDeletes { tenant: tenant.to_owned(), requests });
            assert(tenants@.drop_last() =~= before);
            assert(tenants@.last().tenant@ == tenant@);
        } else {
            assert(given =~= Seq::<DeleteRequest>::empty());
        }
        let state = Self { next_request_id, tenants };
        proof {
            assert forall|other: Seq<char>| other != tenant@ implies #[trigger] state.requests_for(
                other,
            ) == self.requests_for(other) by {
                assert(requests_among(before, other) == requests_among(self.tenants@, other));
            }
        }
        state
    }

    /// The state with one more request, and the ID of that request.
    pub fn create(
        &self,
        tenant: &str,
        start_time: i64,
        end_time: i64,
        query: String,
        created_at: i64,
    ) -> (created: Result<(Self, String), LokiApiError>)
        ensures
            match created {
                Ok((state, request_id)) => {
                    &&& start_time <= end_time
                    &&& self.next_request_id < u64::MAX
                    &&& request_id@ == hex_fixed(self.next_request_id as nat, 16)
                    &&& state.next_request_id == self.next_request_id + 1
                    &&& state.differs_only_for(self, tenant@)
                    &&& state.requests_for(tenant@).len() == self.requests_for(tenant@).len() + 1
                    &&& state.requests_for(tenant@).drop_last() == self.requests_for(tenant@)
                    &&& ({
                        let request = state.requests_for(tenant@).last();
                        &&& request.request_id@ == request_id@
                        &&& request.start_time == start_time
                        &&& request.end_time == end_time
                        &&& request.query == query
                        &&& request.status@ == "received"@
                        &&& request.created_at == created_at
                    })
                },
                Err(error) => if start_time > end_time {
                    error.says(
                        ApiErrorKind::BadRequest,
                        "delete start timestamp must not exceed end timestamp"@,
                    )
                } else {
                    self.next_request_id == u64::MAX && error.says(
                        ApiErrorKind::Internal,
                        "delete request ID space exhausted"@,
                    )
                },
            },
    {
        if start_time > end_time {
            return Err(
                LokiApiError::bad_request("delete start timestamp must not exceed end timestamp"),
            );
        }
        if self.next_request_id == u64::MAX {
            return Err(LokiApiError::internal("delete request ID space exhausted"));
        }
        let mut request_id = String::new();
        push_hex(&mut request_id, self.next_request_id as u128, 16);
        assert(request_id@ =~= hex_fixed(self.next_request_id as nat, 16));
        let mut requests = self.list(tenant);
        let ghost before = requests@;
        requests.push(
            DeleteRequest {
                request_id: request_id.clone(),
                start_time,
                end_time,
                query,
                status: "received".to_owned(),
                created_at,
            },
        );
        assert(requests@.drop_last() =~= before);
        let state = self.with_requests(self.next_request_id + 1, tenant, requests);
        Ok((state, request_id))
    }

    /// The state without one request, where there was such a request.
    pub fn cancel(&self, tenant: &str, request_id: &str) -> (state: Option<Self>)
        ensures
            match state {
                Some(state) => {
                    &&& without_request(self.requests_for(tenant@), request_id@).len()
                        < self.requests_for(tenant@).len()
                    &&& state.next_request_id == self.next_request_id
                    &&& state.differs_only_for(self, tenant@)
                    &&& state.requests_for(tenant@) == without_request(
                        self.requests_for(tenant@),
                        request_id@,
                    )
                },
                None => without_request(self.requests_for(tenant@), request_id@)
                    == self.requests_for(tenant@),
            },
    {
        let requests = self.list(tenant);
        let mut kept: Vec<DeleteRequest> = Vec::new();
        let mut next: usize = 0;
        while next < requests.len()
            invariant
                next <= requests@.len(),
                kept@ == without_request(requests@.take(next as int), request_id@),
                kept@.len() <= next,
                kept@.len() == next ==> kept@ == requests@.take(next as int),
            decreases requests@.len() - next,
        {
            assert(requests@.take(next + 1).drop_last() =~= requests@.take(next as int));
            if !same_str(requests[next].request_id.as_str(), request_id) {
                kept.push(requests[next].copy());
                assert(requests@.take(next + 1) =~= requests@.take(next as int).push(
                    requests@[next as int],
                ));
            }
            next = next + 1;
        }
        assert(requests@.take(next as int) =~= requests@);
        if kept.len() == requests.len() {
            return None;
        }
        Some(self.with_requests(self.next_request_id, tenant, kept))
    }

    /// The state in which a tenant has the replicated requests, in the order of
    /// their IDs.
    pub fn replace_tenant(&self, tenant: &str, requests: Vec<DeleteRequest>) -> (state: Result<
        Self,
        LokiApiError,
    >)
        ensures
            match state {
                Ok(state) => {
                    &&& tenant@.len() > 0
                    &&& forall|i: int| 0 <= i < requests@.len() ==> (#[trigger] requests@[i]).admissible()
                    &&& in_id_order(state.requests_for(tenant@))
                    &&& state.requests_for(tenant@).to_multiset() == requests@.to_multiset()
                    &&& state.differs_only_for(self, tenant@)
                    &&& state.next_request_id == (if id_after(requests@) > self.next_request_id {
                        id_after(requests@)
                    } else {
                        self.next_request_id as nat
                    })
                },
                Err(error) => if tenant@.len() == 0 {
                    error.says(ApiErrorKind::BadRequest, "delete tenant must not be empty"@)
                } else {
                    &&& error.says(
                        ApiErrorKind::BadRequest,
                        "replicated delete requests are invalid or duplicated"@,
                    )
                    &&& (exists|i: int|
                        0 <= i < requests@.len() && !(#[trigger] requests@[i]).admissible()) || (
                    exists|i: int, j: int|
                        0 <= i < j < requests@.len() && (#[trigger] requests@[i]).request_id@ == (
                        #[trigger] requests@[j]).request_id@)
                },
            },
    {
        broadcast use vstd::seq_lib::group_to_multiset_ensures;

        if tenant.is_empty() {
            return Err(LokiApiError::bad_request("delete tenant must not be empty"));
        }
        let mut sorted: Vec<DeleteRequest> = Vec::new();
        let mut largest: Option<u64> = None;
        let mut next: usize = 0;
        assert(requests@.take(0) =~= Seq::<DeleteRequest>::empty());
        assert(sorted@ =~= Seq::<DeleteRequest>::empty());
        while next < requests.len()
            invariant
                tenant@.len() > 0,
                next <= requests@.len(),
                in_id_order(sorted@),
                sorted@.to_multiset() == requests@.take(next as int).to_multiset(),
                forall|k: int|
                    0 <= k < sorted@.len() ==> exists|i: int|
                        0 <= i < next && requests@[i] == #[trigger] sorted@[k],
                forall|i: int| 0 <= i < next ==> (#[trigger] requests@[i]).admissible(),
                match largest {
                    Some(number) => largest_id(requests@.take(next as int)) == Some(number as nat),
                    None => largest_id(requests@.take(next as int)) is None,
                },
            decreases requests@.len() - next,
        {
            broadcast use vstd::seq_lib::group_to_multiset_ensures;

            let request = requests[next].copy();
            let ghost taken = requests@.take(next as int);
            assert(requests@.take(next + 1).drop_last() =~= taken);
            assert(requests@.take(next + 1) =~= taken.push(request));
            if !request.is_admissible() {
                assert(!requests@[next as int].admissible());
                return Err(
                    LokiApiError::bad_request(
                        "replicated delete requests are invalid or duplicated",
                    ),
                );
            }
            let number = parse_hex(request.request_id.as_str().as_bytes());
            largest =
            match (largest, number) {
                (Some(before), Some(found)) => if before >= found {
                    Some(before)
                } else {
                    Some(found)
                },
                (None, found) => found,
                (before, None) => before,
            };
            let place = find_place(&sorted, &request);
            match place {
                Some(place) => {
                    let ghost before = sorted@;
                    sorted.insert(place, request);
                    proof {
                        assert(sorted@ =~= before.insert(place as int, request));
                        assert(sorted@.remove(place as int) =~= before);
                        assert(sorted@[place as int] == request);
                        assert(sorted@.contains(request));
                        assert(sorted@.to_multiset() =~= before.to_multiset().insert(request));
                        assert(in_id_order(sorted@)) by {
                            lemma_insert_keeps_order(before, place as int, request);
                        }
                        assert forall|k: int| 0 <= k < sorted@.len() implies exists|i: int|
                            0 <= i < next + 1 && requests@[i] == #[trigger] sorted@[k] by {
                            if k < place {
                                assert(sorted@[k] == before[k]);
                            } else if k > place {
                                assert(sorted@[k] == before[k - 1]);
                            } else {
                                assert(requests@[next as int] == sorted@[k]);
                            }
                        }
                    }
                },
                None => {
                    proof {
                        let k = choose|k: int|
                            0 <= k < sorted@.len() && (#[trigger] sorted@[k]).request_id@
                                == request.request_id@;
                        let i = choose|i: int| 0 <= i < next && requests@[i] == sorted@[k];
                        assert(requests@[i].request_id@ == requests@[next as int].request_id@);
                    }
                    return Err(
                        LokiApiError::bad_request(
                            "replicated delete requests are invalid or duplicated",
                        ),
                    );
                },
            }
            next = next + 1;
        }
        assert(requests@.take(next as int) =~= requests@);
        let after = match largest {
            Some(number) => if number < u64::MAX {
                number + 1
            } else {
                1
            },
            None => 1,
        };
        let next_request_id = if after > self.next_request_id {
            after
        } else {
            self.next_request_id
        };
        Ok(self.with_requests(next_request_id, tenant, sorted))
    }
}

/// Copies requests.
fn copy_requests(requests: &Vec<DeleteRequest>) -> (copies: Vec<DeleteRequest>)
    ensures
        copies@ == requests@,
{
    let mut copies: Vec<DeleteRequest> = Vec::new();
    let mut next: usize = 0;
    while next < requests.len()
        invariant
            next <= requests@.len(),
            copies@ == requests@.take(next as int),
        decreases requests@.len() - next,
    {
        copies.push(requests[next].copy());
        next = next + 1;
        assert(copies@ =~= requests@.take(next as int));
    }
    assert(requests@.take(next as int) =~= requests@);
    copies
}

/// Where a request belongs among sorted ones, unless its ID is taken.
fn find_place(sorted: &Vec<DeleteRequest>, request: &DeleteRequest) -> (place: Option<usize>)
    requires
        in_id_order(sorted@),
    ensures
        match place {
            Some(place) => {
                &&& place <= sorted@.len()
                &&& forall|k: int|
                    0 <= k < place ==> key_precedes(
                        (#[trigger] sorted@[k]).request_id@,
                        request.request_id@,
                    )
                &&& forall|k: int|
                    place <= k < sorted@.len() ==> key_precedes(
                        request.request_id@,
                        (#[trigger] sorted@[k]).request_id@,
                    )
            },
            None => exists|k: int|
                0 <= k < sorted@.len() && (#[trigger] sorted@[k]).request_id@
                    == request.request_id@,
        },
{
    let mut place: usize = 0;
    while place < sorted.len() && is_before(
        sorted[place].request_id.as_str().as_bytes(),
        request.request_id.as_str().as_bytes(),
    )
        invariant
            place <= sorted@.len(),
            forall|k: int|
                0 <= k < place ==> key_precedes(
                    (#[trigger] sorted@[k]).request_id@,
                    request.request_id@,
                ),
        decreases sorted@.len() - place,
    {
        place = place + 1;
    }
    if place < sorted.len() {
        if same_str(sorted[place].request_id.as_str(), request.request_id.as_str()) {
            return None;
        }
        proof {
            let found = sorted@[place as int].request_id@;
            key_order_is_total(found, request.request_id@);
            assert forall|k: int| place <= k < sorted@.len() implies key_precedes(
                request.request_id@,
                (#[trigger] sorted@[k]).request_id@,
            ) by {
                if k > place {
                    assert(key_precedes(found, sorted@[k].request_id@));
                    crate::string_map::byte_order_is_transitive(
                        vstd::utf8::encode_utf8(request.request_id@),
                        vstd::utf8::encode_utf8(found),
                        vstd::utf8::encode_utf8(sorted@[k].request_id@),
                    );
                }
            }
        }
    }
    Some(place)
}

proof fn lemma_insert_keeps_order(requests: Seq<DeleteRequest>, place: int, request: DeleteRequest)
    requires
        in_id_order(requests),
        0 <= place <= requests.len(),
        forall|k: int|
            0 <= k < place ==> key_precedes(
                (#[trigger] requests[k]).request_id@,
                request.request_id@,
            ),
        forall|k: int|
            place <= k < requests.len() ==> key_precedes(
                request.request_id@,
                (#[trigger] requests[k]).request_id@,
            ),
    ensures
        in_id_order(requests.insert(place, request)),
{
    let inserted = requests.insert(place, request);
    assert forall|i: int, j: int| 0 <= i < j < inserted.len() implies key_precedes(
        (#[trigger] inserted[i]).request_id@,
        (#[trigger] inserted[j]).request_id@,
    ) by {
        let a = if i < place {
            i
        } else {
            i - 1
        };
        let b = if j < place {
            j
        } else {
            j - 1
        };
        if i != place {
            assert(inserted[i] == requests[a]);
        }
        if j != place {
            assert(inserted[j] == requests[b]);
        }
    }
}

/// Reads a 64-bit number from hexadecimal text.
pub fn parse_hex(bytes: &[u8]) -> (number: Option<u64>)
    ensures
        match number {
            Some(number) => hex_number(bytes@) == Some(number as nat),
            None => hex_number(bytes@) is None,
        },
{
    assert(bytes.len() == bytes@.len());
    let start: usize = if bytes.len() > 0 && bytes[0] == 0x2b {
        1
    } else {
        0
    };
    let ghost digits = if bytes@.len() > 0 && bytes@[0] == 0x2b {
        bytes@.skip(1)
    } else {
        bytes@
    };
    assert(digits =~= bytes@.skip(start as int));
    if start == bytes.len() {
        return None;
    }
    let mut value: u64 = 0;
    let mut next: usize = start;
    while next < bytes.len()
        invariant
            start <= next <= bytes@.len(),
            bytes.len() == bytes@.len(),
            digits == bytes@.skip(start as int),
            hex_digits_value(digits.take(next - start)) == Some(value as nat),
            start < bytes@.len(),
            digits == (if bytes@.len() > 0 && bytes@[0] == 0x2b {
                bytes@.skip(1)
            } else {
                bytes@
            }),
        decreases bytes@.len() - next,
    {
        let ghost longer = digits.take(next + 1 - start);
        assert(longer.drop_last() =~= digits.take(next - start));
        assert(longer.last() == bytes@[next as int]);
        proof {
            lemma_hex_prefix(digits, next + 1 - start);
        }
        match hex_nibble(bytes[next]) {
            Some(digit) => {
                if value > (u64::MAX - digit as u64) / 16 {
                    return None;
                }
                value = value * 16 + digit as u64;
            },
            None => {
                return None;
            },
        }
        next = next + 1;
    }
    assert(digits.take(next - start) =~= digits);
    Some(value)
}

/// Digits stand for at least as much as the first of them do.
proof fn lemma_hex_prefix(digits: Seq<u8>, count: int)
    requires
        0 <= count <= digits.len(),
    ensures
        match (hex_digits_value(digits.take(count)), hex_digits_value(digits)) {
            (Some(part), Some(whole)) => part <= whole,
            (None, whole) => whole is None,
            _ => true,
        },
    decreases digits.len(),
{
    if count == digits.len() {
        assert(digits.take(count) =~= digits);
    } else {
        lemma_hex_prefix(digits.drop_last(), count);
        assert(digits.drop_last().take(count) =~= digits.take(count));
    }
}

/// Lower-case hexadecimal digits of bytes.
pub open spec fn hex_of(bytes: Seq<u8>) -> Seq<char>
    decreases bytes.len(),
{
    if bytes.len() == 0 {
        Seq::empty()
    } else {
        hex_of(bytes.drop_last()) + hex_fixed(bytes.last() as nat, 2)
    }
}

/// Writes bytes as lower-case hexadecimal digits.
pub fn hex_string(bytes: &[u8]) -> (text: String)
    ensures
        text@ == hex_of(bytes@),
{
    let mut text = String::new();
    let mut next: usize = 0;
    assert(text@ =~= hex_of(bytes@.take(0)));
    while next < bytes.len()
        invariant
            next <= bytes@.len(),
            text@ == hex_of(bytes@.take(next as int)),
        decreases bytes@.len() - next,
    {
        assert(bytes@.take(next + 1).drop_last() =~= bytes@.take(next as int));
        push_hex(&mut text, bytes[next] as u128, 2);
        next = next + 1;
    }
    assert(bytes@.take(next as int) =~= bytes@);
    text
}

/// The checksum of an encoded catalog state.
pub fn catalog_checksum(state_bytes: &[u8]) -> (checksum: String)
    ensures
        checksum@ == hex_of(blake3_digest(state_bytes@)),
{
    let digest = blake3_hash(state_bytes);
    hex_string(&digest)
}

/// Accepts a loaded catalog. `state_bytes` is the encoding of `state`, and
/// `checksum` what was stored beside it.
pub fn load_state(version: u32, state: DeleteState, state_bytes: &[u8], checksum: &str) -> (loaded:
    Result<DeleteState, LokiApiError>)
    ensures
        match loaded {
            Ok(loaded) => {
                &&& version == DELETE_CATALOG_VERSION
                &&& checksum@ == hex_of(blake3_digest(state_bytes@))
                &&& state.next_request_id != 0
                &&& loaded == state
            },
            Err(error) => if version != DELETE_CATALOG_VERSION {
                error.says(
                    ApiErrorKind::Internal,
                    "unsupported delete catalog version "@ + decimal(version as nat),
                )
            } else if checksum@ != hex_of(blake3_digest(state_bytes@)) {
                error.says(
                    ApiErrorKind::Internal,
                    "delete catalog checksum does not match its state"@,
                )
            } else {
                state.next_request_id == 0 && error.says(
                    ApiErrorKind::Internal,
                    "delete catalog next request ID must be nonzero"@,
                )
            },
        },
{
    if version != DELETE_CATALOG_VERSION {
        let mut text = "unsupported delete catalog version ".to_owned();
        push_decimal(&mut text, version as u128);
        return Err(LokiApiError::internal(text.as_str()));
    }
    let observed = catalog_checksum(state_bytes);
    if !same_str(observed.as_str(), checksum) {
        return Err(LokiApiError::internal("delete catalog checksum does not match its state"));
    }
    if state.next_request_id == 0 {
        return Err(LokiApiError::internal("delete catalog next request ID must be nonzero"));
    }
    Ok(state)
}

/// A request that was created can be canceled, and canceling it leaves its
/// tenant with the requests it had before.
pub proof fn cancel_undoes_create(before: Seq<DeleteRequest>, created: DeleteRequest)
    requires
        forall|i: int| 0 <= i < before.len() ==> (#[trigger] before[i]).request_id@ != created.request_id@,
    ensures
        without_request(before.push(created), created.request_id@) == before,
{
    lemma_nothing_removed(before, created.request_id@);
    assert(before.push(created).drop_last() =~= before);
}

proof fn lemma_nothing_removed(requests: Seq<DeleteRequest>, request_id: Seq<char>)
    requires
        forall|i: int| 0 <= i < requests.len() ==> (#[trigger] requests[i]).request_id@ != request_id,
    ensures
        without_request(requests, request_id) == requests,
    decreases requests.len(),
{
    if requests.len() > 0 {
        let shorter = requests.drop_last();
        assert forall|i: int| 0 <= i < shorter.len() implies (#[trigger] shorter[i]).request_id@
            != request_id by {
            assert(shorter[i] == requests[i]);
        }
        lemma_nothing_removed(shorter, request_id);
        assert(requests.last() == requests[requests.len() - 1]);
        assert(shorter.push(requests.last()) =~= requests);
    }
}

/// Sixteen hexadecimal digits tell request numbers apart.
pub proof fn request_ids_are_distinct(left: u64, right: u64)
    requires
        left != right,
    ensures
        hex_fixed(left as nat, 16) != hex_fixed(right as nat, 16),
{
    reveal_with_fuel(sixteen_to, 17);
    assert(sixteen_to(16) == 0x1_0000_0000_0000_0000);
    if hex_fixed(left as nat, 16) == hex_fixed(right as nat, 16) {
        lemma_digits_tell_apart(left as nat, right as nat, 16);
    }
}

/// A power of sixteen.
pub open spec fn sixteen_to(exponent: nat) -> nat
    decreases exponent,
{
    if exponent == 0 {
        1
    } else {
        sixteen_to((exponent - 1) as nat) * 16
    }
}

proof fn lemma_digits_tell_apart(left: nat, right: nat, width: nat)
    requires
        left < sixteen_to(width),
        right < sixteen_to(width),
        hex_fixed(left, width) == hex_fixed(right, width),
    ensures
        left == right,
    decreases width,
{
    if width > 0 {
        let rest = (width - 1) as nat;
        let left_text = hex_fixed(left, width);
        let right_text = hex_fixed(right, width);
        assert(left_text.drop_last() =~= hex_fixed(left / 16, rest));
        assert(right_text.drop_last() =~= hex_fixed(right / 16, rest));
        assert(left_text.last() == right_text.last());
        lemma_digits_tell_apart(left / 16, right / 16, rest);
    }
}

} // verus!
