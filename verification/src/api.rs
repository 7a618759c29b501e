//! The rules of the area query: what is asked of the OpenSky Network, and
//! what its answer means.

use vstd::prelude::*;
use vstd::string::StringExecFns;
use crate::error::IfoError;
use crate::http::{is_success, success, Body, Reply};
use crate::json::JsonValue;
use crate::models::{
    Aircraft, AircraftView, BoundingBox, OpenSkyResponse, STATE_VECTOR_LENGTH, state_vector_view,
};
use crate::number::Double;

verus! {

/// The client's side of the area query, apart from the transport.
#[derive(Debug)]
pub struct OpenSkyClient {
    pub base_url: String,
    pub user_agent: String,
    pub timeout_secs: u64,
}

/// The views of a list of aircraft.
pub open spec fn aircraft_views(list: Seq<Aircraft>) -> Seq<AircraftView> {
    list.map_values(|a: Aircraft| a@)
}

/// Whether a state vector is long enough to be read.
pub open spec fn readable(state: Vec<JsonValue>) -> bool {
    state.len() >= STATE_VECTOR_LENGTH
}

/// What a list of state vectors says: the aircraft of each one that can be
/// read, in the order of the list.
pub open spec fn states_views(states: Seq<Vec<JsonValue>>) -> Seq<AircraftView> {
    readable_states(states).map_values(|s: Vec<JsonValue>| state_vector_view(s@))
}

/// The state vectors of a list that can be read, in the order of the list.
pub open spec fn readable_states(states: Seq<Vec<JsonValue>>) -> Seq<Vec<JsonValue>> {
    states.filter(|s: Vec<JsonValue>| readable(s))
}

/// The state vectors of a list that cannot be read, in the order of the list.
pub open spec fn unreadable_states(states: Seq<Vec<JsonValue>>) -> Seq<Vec<JsonValue>> {
    states.filter(|s: Vec<JsonValue>| !readable(s))
}

/// The fault of a state vector that cannot be read.
pub open spec fn state_fault(state: Vec<JsonValue>) -> IfoError {
    IfoError::InvalidStateVector { expected: STATE_VECTOR_LENGTH, got: state.len() }
}

/// The faults of the state vectors that are passed over, in the order of the list.
pub open spec fn states_faults(states: Seq<Vec<JsonValue>>) -> Seq<IfoError> {
    unreadable_states(states).map_values(|s: Vec<JsonValue>| state_fault(s))
}

/// The state vectors of a body: none where the list is absent.
pub open spec fn states_of(data: OpenSkyResponse) -> Seq<Vec<JsonValue>> {
    match data.states {
        Some(states) => states@,
        None => Seq::empty(),
    }
}

/// Taking one more state vector into a prefix adds it to the readable ones of
/// the prefix or to the others, and leaves the rest as they are.
proof fn lemma_readable_take(s: Seq<Vec<JsonValue>>, i: int)
    requires
        0 <= i < s.len(),
    ensures
        readable_states(s.take(i + 1)) == if readable(s[i]) {
            readable_states(s.take(i)).push(s[i])
        } else {
            readable_states(s.take(i))
        },
        unreadable_states(s.take(i + 1)) == if readable(s[i]) {
            unreadable_states(s.take(i))
        } else {
            unreadable_states(s.take(i)).push(s[i])
        },
{
    reveal(Seq::filter);
    assert(s.take(i + 1).drop_last() =~= s.take(i));
    assert(s.take(i + 1).last() == s[i]);
}

impl OpenSkyClient {
    /// The client of the public service, which gives up on a request after
    /// `timeout_secs` seconds.
    pub fn new(timeout_secs: u64) -> (client: OpenSkyClient)
        ensures
            client.base_url@ == "https://opensky-network.org/api"@,
            client.user_agent@ == "IFO-CLI/2.0 (Rust)"@,
            client.timeout_secs == timeout_secs,
    {
        OpenSkyClient {
            base_url: String::from_str("https://opensky-network.org/api"),
            user_agent: String::from_str("IFO-CLI/2.0 (Rust)"),
            timeout_secs,
        }
    }

    /// The address of the area query.
    pub fn url(&self) -> (url: String)
        ensures
            url@ == self.base_url@ + "/states/all"@,
    {
        self.base_url.clone().concat("/states/all")
    }

    /// The parameters of the area query for a box: its four edges under the
    /// names that the service gives them.
    pub fn query(&self, bbox: BoundingBox) -> (query: Vec<(String, Double)>)
        ensures
            query.len() == 4,
            query[0].0@ == "lamin"@ && query[0].1 == bbox.lat_min,
            query[1].0@ == "lomin"@ && query[1].1 == bbox.lon_min,
            query[2].0@ == "lamax"@ && query[2].1 == bbox.lat_max,
            query[3].0@ == "lomax"@ && query[3].1 == bbox.lon_max,
    {
        let mut query: Vec<(String, Double)> = Vec::with_capacity(4);
        query.push((String::from_str("lamin"), bbox.lat_min));
        query.push((String::from_str("lomin"), bbox.lon_min));
        query.push((String::from_str("lamax"), bbox.lat_max));
        query.push((String::from_str("lomax"), bbox.lon_max));
        query
    }

    /// The aircraft in an answer to the area query.
    ///
    /// An answer that is no success fails with its status and text. A
    /// success whose body was not decoded cannot be used. A decoded body
    /// gives the aircraft of its state vectors, in their order: a vector that
    /// cannot be read is passed over, and an absent list gives no aircraft.
    pub fn get_aircraft_in_area(&self, reply: Reply<OpenSkyResponse>) -> (r: Result<
        Vec<Aircraft>,
        IfoError,
    >)
        ensures
            !success(reply.status) ==> (r matches Err(IfoError::ApiError { status, message })
                && status == reply.status && message@ == reply.body.text()),
            success(reply.status) && reply.body is Text ==> (r matches Err(
                IfoError::UnexpectedResponse { service },
            ) && service@ == "OpenSky"@),
            success(reply.status) ==> (reply.body matches Body::Decoded(data) ==> (r matches Ok(
                list,
            ) && aircraft_views(list@) == states_views(states_of(data)))),
    {
        if !is_success(reply.status) {
            let status = reply.status;
            return Err(IfoError::ApiError { status, message: reply.into_text() });
        }
        match reply.body {
            Body::Text(_) => Err(
                IfoError::UnexpectedResponse { service: String::from_str("OpenSky") },
            ),
            Body::Decoded(data) => Ok(parse_states(data)),
        }
    }
}

/// The aircraft of the state vectors of a body.
pub fn parse_states(data: OpenSkyResponse) -> (list: Vec<Aircraft>)
    ensures
        aircraft_views(list@) == states_views(states_of(data)),
{
    let states = match data.states {
        Some(states) => states,
        None => {
            assert(readable_states(states_of(data)) =~= Seq::empty()) by {
                reveal(Seq::filter);
            }
            assert(states_views(states_of(data)) =~= Seq::empty());
            let list: Vec<Aircraft> = Vec::new();
            assert(aircraft_views(list@) =~= Seq::empty());
            return list;
        },
    };
    let ghost all = states@;
    let mut list: Vec<Aircraft> = Vec::with_capacity(states.len());
    assert(readable_states(all.take(0)) =~= Seq::empty()) by {
        reveal(Seq::filter);
        assert(all.take(0) =~= Seq::empty());
    }
    assert(aircraft_views(list@) =~= states_views(all.take(0)));
    for state in it: states
        invariant
            it.seq() == all,
            aircraft_views(list@) == states_views(all.take(it.index() as int)),
    {
        let ghost i = it.index() as int;
        let ghost before = list@;
        proof {
            lemma_readable_take(all, i);
        }
        match Aircraft::from_state_vector(state) {
            Ok(aircraft) => {
                list.push(aircraft);
                assert(aircraft_views(list@) =~= aircraft_views(before).push(aircraft@));
                assert(states_views(all.take(i + 1)) =~= states_views(all.take(i)).push(
                    state_vector_view(all[i]@),
                ));
            },
            Err(_) => {},
        }
    }
    assert(all.take(all.len() as int) =~= all);
    list
}

/// The faults of the state vectors of a body that `parse_states` passes
/// over, in their order: what there is to warn of.
pub fn skipped(data: &OpenSkyResponse) -> (faults: Vec<IfoError>)
    ensures
        faults@ == states_faults(states_of(*data)),
{
    let mut faults: Vec<IfoError> = Vec::new();
    let states = match &data.states {
        Some(states) => states,
        None => {
            assert(unreadable_states(states_of(*data)) =~= Seq::empty()) by {
                reveal(Seq::filter);
            }
            assert(faults@ =~= states_faults(states_of(*data)));
            return faults;
        },
    };
    let ghost all = states@;
    assert(unreadable_states(all.take(0)) =~= Seq::empty()) by {
        reveal(Seq::filter);
        assert(all.take(0) =~= Seq::empty());
    }
    assert(faults@ =~= states_faults(all.take(0)));
    let mut i: usize = 0;
    while i < states.len()
        invariant
            all == states@,
            i <= all.len(),
            faults@ == states_faults(all.take(i as int)),
        decreases all.len() - i,
    {
        let ghost before = faults@;
        proof {
            lemma_readable_take(all, i as int);
        }
        let got = states[i].len();
        if got < STATE_VECTOR_LENGTH {
            faults.push(IfoError::InvalidStateVector { expected: STATE_VECTOR_LENGTH, got });
            assert(states_faults(all.take(i + 1)) =~= states_faults(all.take(i as int)).push(
                state_fault(all[i as int]),
            ));
        }
        i = i + 1;
    }
    assert(all.take(i as int) =~= all);
    faults
}

} // verus!
