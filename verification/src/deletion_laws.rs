//! What removing deletion requests keeps, and how their numbers are told.

use vstd::arithmetic::power::{lemma_pow0, lemma_pow1, lemma_pow_adds, pow};
use vstd::prelude::*;
use vstd::utf8::{encode_utf8, is_ascii_chars, is_ascii_chars_encode_utf8};

use crate::deletion::{
    hex_digits_value, hex_number, id_after, largest_id, requests_among, without_request,
    DeleteRequest, TenantDeletes,
};
use crate::text::{hex_fixed, nibble};
use crate::text_laws::fixed_hex_reads_back;

verus! {

/// Removing a request keeps every request with another ID, in order, and none with
/// that ID.
pub proof fn removal_keeps_the_others(requests: Seq<DeleteRequest>, request_id: Seq<char>)
    ensures
        forall|i: int|
            0 <= i < without_request(requests, request_id).len() ==> (
            #[trigger] without_request(requests, request_id)[i]).request_id@ != request_id,
        forall|request: DeleteRequest|
            request.request_id@ != request_id ==> (#[trigger] without_request(
                requests,
                request_id,
            ).contains(request) <==> requests.contains(request)),
        without_request(requests, request_id) == requests.filter(
            |request: DeleteRequest| request.request_id@ != request_id,
        ),
    decreases requests.len(),
{
    reveal(Seq::filter);
    let other = |request: DeleteRequest| request.request_id@ != request_id;
    let kept = without_request(requests, request_id);
    if requests.len() > 0 {
        removal_keeps_the_others(requests.drop_last(), request_id);
    }
    assert(kept == requests.filter(other));
    assert forall|request: DeleteRequest| request.request_id@ != request_id implies (
    #[trigger] kept.contains(request) <==> requests.contains(request)) by {
        if requests.len() > 0 {
            let shorter = requests.drop_last();
            let before = without_request(shorter, request_id);
            assert(before.contains(request) <==> shorter.contains(request));
            assert(requests.contains(request) <==> shorter.contains(request) || requests.last()
                == request) by {
                if requests.contains(request) {
                    let i = choose|i: int| 0 <= i < requests.len() && requests[i] == request;
                    if i < shorter.len() {
                        assert(shorter[i] == request);
                    }
                }
                if shorter.contains(request) {
                    let i = choose|i: int| 0 <= i < shorter.len() && shorter[i] == request;
                    assert(requests[i] == request);
                }
                assert(requests[requests.len() - 1] == requests.last());
            }
            if requests.last().request_id@ != request_id {
                assert(kept == before.push(requests.last()));
                assert(kept[before.len() as int] == requests.last());
                if before.contains(request) {
                    let i = choose|i: int| 0 <= i < before.len() && before[i] == request;
                    assert(kept[i] == request);
                }
                if kept.contains(request) {
                    let i = choose|i: int| 0 <= i < kept.len() && kept[i] == request;
                    if i < before.len() {
                        assert(before[i] == request);
                    }
                }
            }
        }
    }
}

/// The number of a request's ID, where it is one.
pub open spec fn request_number(request: DeleteRequest) -> Option<nat> {
    hex_number(encode_utf8(request.request_id@))
}

/// The largest request number is one of them and no other is larger; there is none
/// exactly where no ID is a number.
pub proof fn largest_numbers_are_largest(requests: Seq<DeleteRequest>)
    ensures
        match largest_id(requests) {
            Some(largest) => {
                &&& exists|i: int|
                    0 <= i < requests.len() && request_number(#[trigger] requests[i]) == Some(
                        largest,
                    )
                &&& forall|i: int|
                    0 <= i < requests.len() ==> (request_number(#[trigger] requests[i]) matches Some(
                        number,
                    ) ==> number <= largest)
            },
            None => forall|i: int|
                0 <= i < requests.len() ==> request_number(#[trigger] requests[i]) is None,
        },
    decreases requests.len(),
{
    if requests.len() > 0 {
        let shorter = requests.drop_last();
        let last = requests.len() - 1;
        largest_numbers_are_largest(shorter);
        assert(request_number(requests[last]) == request_number(requests.last()));
        assert(forall|i: int| 0 <= i < last ==> #[trigger] requests[i] == shorter[i]);
        if let Some(before) = largest_id(shorter) {
            let i = choose|i: int|
                0 <= i < shorter.len() && request_number(#[trigger] shorter[i]) == Some(before);
            assert(request_number(requests[i]) == Some(before));
        }
    }
}

/// The next request number is larger than every number among the requests, unless
/// they have used the largest 64-bit number; the first is one.
pub proof fn next_numbers_are_unused(requests: Seq<DeleteRequest>, at: int)
    requires
        0 <= at < requests.len(),
        largest_id(requests) matches Some(largest) ==> largest < u64::MAX,
    ensures
        request_number(requests[at]) matches Some(number) ==> number < id_after(requests),
        id_after(Seq::<DeleteRequest>::empty()) == 1,
{
    largest_numbers_are_largest(requests);
}

proof fn lemma_hex_text(value: nat, width: nat)
    requires
        value < pow(16, width),
    ensures
        is_ascii_chars(hex_fixed(value, width)),
        hex_digits_value(encode_utf8(hex_fixed(value, width))) == Some(value),
        encode_utf8(hex_fixed(value, width)).len() == width,
        width > 0 ==> encode_utf8(hex_fixed(value, width))[0] != 0x2b,
    decreases width,
{
    lemma_pow0(16);
    fixed_hex_reads_back(value, width);
    let text = hex_fixed(value, width);
    is_ascii_chars_encode_utf8(text);
    let bytes = encode_utf8(text);
    if width > 0 {
        let narrower = (width - 1) as nat;
        lemma_pow1(16);
        lemma_pow_adds(16, 1, narrower);
        lemma_hex_text(value / 16, narrower);
        let shorter = hex_fixed(value / 16, narrower);
        is_ascii_chars_encode_utf8(shorter);
        assert(bytes.drop_last() =~= encode_utf8(shorter)) by {
            assert forall|i: int| 0 <= i < narrower implies bytes.drop_last()[i] == encode_utf8(
                shorter,
            )[i] by {
                assert(text[i] == shorter[i]);
            }
        }
        assert(bytes.last() == text[width - 1] as u8);
        assert(nibble(bytes.last()) == Some((value % 16) as u8));
        assert(bytes[0] == text[0] as u8);
    }
}

/// The ID of a request number is read back as that number.
pub proof fn request_ids_read_back(number: u64)
    ensures
        hex_number(encode_utf8(hex_fixed(number as nat, 16))) == Some(number as nat),
{
    assert(pow(16, 16) == 0x1_0000_0000_0000_0000) by {
        reveal_with_fuel(pow, 17);
    }
    lemma_hex_text(number as nat, 16);
}

/// The requests of a tenant are those filed last under its name; where nothing is
/// filed there are none.
pub proof fn requests_are_filed_under_their_tenant(tenants: Seq<TenantDeletes>, tenant: Seq<char>)
    ensures
        (exists|i: int|
            0 <= i < tenants.len() && (#[trigger] tenants[i]).tenant@ == tenant && requests_among(
                tenants,
                tenant,
            ) == tenants[i].requests@ && forall|j: int|
                i < j < tenants.len() ==> (#[trigger] tenants[j]).tenant@ != tenant) || (
        requests_among(tenants, tenant).len() == 0 && forall|i: int|
            0 <= i < tenants.len() ==> (#[trigger] tenants[i]).tenant@ != tenant),
    decreases tenants.len(),
{
    if tenants.len() > 0 {
        let last = tenants.len() - 1;
        if tenants[last].tenant@ != tenant {
            let earlier = tenants.drop_last();
            requests_are_filed_under_their_tenant(earlier, tenant);
            assert(forall|i: int| 0 <= i < last ==> earlier[i] == #[trigger] tenants[i]);
            if exists|i: int|
                0 <= i < earlier.len() && (#[trigger] earlier[i]).tenant@ == tenant
                    && requests_among(earlier, tenant) == earlier[i].requests@ && forall|j: int|
                    i < j < earlier.len() ==> (#[trigger] earlier[j]).tenant@ != tenant {
                let i = choose|i: int|
                    0 <= i < earlier.len() && (#[trigger] earlier[i]).tenant@ == tenant
                        && requests_among(earlier, tenant) == earlier[i].requests@ && forall|j: int|
                        i < j < earlier.len() ==> (#[trigger] earlier[j]).tenant@ != tenant;
                assert(tenants[i].tenant@ == tenant);
                assert forall|j: int| i < j < tenants.len() implies (
                #[trigger] tenants[j]).tenant@ != tenant by {
                    if j < last {
                        assert(earlier[j].tenant@ != tenant);
                    }
                }
            } else {
                assert forall|i: int| 0 <= i < tenants.len() implies (
                #[trigger] tenants[i]).tenant@ != tenant by {
                    if i < last {
                        assert(earlier[i].tenant@ != tenant);
                    }
                }
            }
        } else {
            assert(tenants[last].tenant@ == tenant);
        }
    }
}

} // verus!
