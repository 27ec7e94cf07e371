//! Queries that the store answers, and the client that asks them.

use vstd::prelude::*;

use crate::records::{SeriesFingerprint, TraceId};
use crate::string_map::StringMap;

verus! {

/// Order in which the entries of a log query come back.
#[derive(Debug, Clone, Copy, PartialEq, Eq, Structural)]
pub enum NativeQueryDirection {
    /// Oldest entry first.
    OldestFirst,
    /// Newest entry first.
    NewestFirst,
}

/// A query of the log index.
#[derive(Debug, PartialEq, Eq)]
pub struct NativeQuery {
    /// Tenant whose entries are asked for.
    pub tenant: String,
    /// Labels that every entry has.
    pub labels: StringMap,
    /// Terms that every entry holds.
    pub terms: Vec<String>,
    /// Earliest time, where there is one.
    pub start_timestamp_unix_nanos: Option<u64>,
    /// Latest time, where there is one.
    pub end_timestamp_unix_nanos: Option<u64>,
    /// Most entries of a response.
    pub limit: u32,
    /// Order of the entries.
    pub direction: NativeQueryDirection,
}

/// A query of the trace index.
#[derive(Debug, PartialEq, Eq)]
pub struct TraceQuery {
    /// Tenant whose spans are asked for.
    pub tenant: String,
    /// Trace of the spans, where one is named.
    pub trace_id: Option<TraceId>,
    /// Most spans of a response.
    pub limit: usize,
}

/// A query of the metric index.
#[derive(Debug, PartialEq, Eq)]
pub struct MetricQuery {
    /// Tenant whose points are asked for.
    pub tenant: String,
    /// Series of the points, where one is named.
    pub series: Option<SeriesFingerprint>,
    /// Most points of a response.
    pub limit: usize,
}

/// What the query client was asked to send.
pub struct QueryArguments {
    /// Tenant whose entries are asked for.
    pub tenant: String,
    /// Labels in the order in which they were given.
    pub labels: Vec<(String, String)>,
    /// Terms that every entry holds.
    pub terms: Vec<String>,
    /// Earliest time, where there is one.
    pub start: Option<u64>,
    /// Latest time, where there is one.
    pub end: Option<u64>,
    /// Most entries of a response.
    pub limit: u32,
    /// Whether the newest entry comes first.
    pub newest_first: bool,
    /// Queries that are measured.
    pub iterations: usize,
}

/// Labels given one after another: of two with one key, the later counts.
pub open spec fn given_labels(labels: Seq<(String, String)>) -> Map<Seq<char>, Seq<char>>
    decreases labels.len(),
{
    if labels.len() == 0 {
        Map::empty()
    } else {
        given_labels(labels.drop_last()).insert(labels.last().0@, labels.last().1@)
    }
}

fn collect_labels(labels: Vec<(String, String)>) -> (map: StringMap)
    ensures
        map@ == given_labels(labels@),
{
    let mut map = StringMap::new();
    let mut index: usize = 0;
    assert(labels@.take(0) =~= Seq::<(String, String)>::empty());
    while index < labels.len()
        invariant
            index <= labels@.len(),
            map@ == given_labels(labels@.take(index as int)),
        decreases labels@.len() - index,
    {
        map.insert(labels[index].0.as_str().to_owned(), labels[index].1.as_str().to_owned());
        proof {
            let longer = labels@.take(index + 1);
            assert(longer.drop_last() =~= labels@.take(index as int));
        }
        index = index + 1;
    }
    assert(labels@.take(index as int) =~= labels@);
    map
}

/// The query that the client sends for its arguments.
pub fn client_query(arguments: QueryArguments) -> (query: Result<NativeQuery, String>)
    ensures
        match query {
            Ok(query) => {
                &&& arguments.limit != 0
                &&& arguments.iterations != 0
                &&& query.tenant == arguments.tenant
                &&& query.labels@ == given_labels(arguments.labels@)
                &&& query.terms == arguments.terms
                &&& query.start_timestamp_unix_nanos == arguments.start
                &&& query.end_timestamp_unix_nanos == arguments.end
                &&& query.limit == arguments.limit
                &&& query.direction == if arguments.newest_first {
                    NativeQueryDirection::NewestFirst
                } else {
                    NativeQueryDirection::OldestFirst
                }
            },
            Err(text) => (arguments.limit == 0 || arguments.iterations == 0) && text@
                == "limit and iterations must be nonzero"@,
        },
{
    if arguments.limit == 0 || arguments.iterations == 0 {
        return Err("limit and iterations must be nonzero".to_owned());
    }
    Ok(
        NativeQuery {
            tenant: arguments.tenant,
            labels: collect_labels(arguments.labels),
            terms: arguments.terms,
            start_timestamp_unix_nanos: arguments.start,
            end_timestamp_unix_nanos: arguments.end,
            limit: arguments.limit,
            direction: if arguments.newest_first {
                NativeQueryDirection::NewestFirst
            } else {
                NativeQueryDirection::OldestFirst
            },
        },
    )
}

/// What a response says of itself.
pub struct ResponseHead {
    /// Whether it is a response at all.
    pub is_response: bool,
    /// Request that it answers.
    pub request_id: u128,
    /// Whether it answers a query.
    pub is_query: bool,
    /// Whether the query was answered.
    pub is_ok: bool,
}

impl ResponseHead {
    /// Whether this heads the answer to a query.
    pub open spec fn answers(self, request_id: u128) -> bool {
        self.is_response && self.request_id == request_id && self.is_query && self.is_ok
    }

    /// Accepts the answer to a query; `status` and `text` render the status and
    /// the payload of a response that is none.
    pub fn accept(&self, request_id: u128, status: &str, text: &str) -> (accepted: Result<
        (),
        String,
    >)
        ensures
            match accepted {
                Ok(_) => self.answers(request_id),
                Err(complaint) => !self.answers(request_id) && complaint@
                    == "query failed with status "@ + status@ + ": "@ + text@,
            },
    {
        if self.is_response && self.request_id == request_id && self.is_query && self.is_ok {
            return Ok(());
        }
        let mut complaint = "query failed with status ".to_owned();
        complaint.append(status);
        complaint.append(": ");
        complaint.append(text);
        Err(complaint)
    }
}

} // verus!
