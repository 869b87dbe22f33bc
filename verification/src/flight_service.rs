//! What a flight server does with a request, told from what accompanies it.

use vstd::prelude::*;

use crate::error::ErrorCode;
use crate::flight_client::connection_metadata;
use crate::flight_client::ConnectionView;
use crate::flight_client::FlightData;
use crate::flight_client::Metadata;
use crate::text::concat;
use crate::text::decimal;
use crate::text::decimal_is_parsed_back;
use crate::text::parse_number;
use crate::text::parsed;
use crate::text::quote;
use crate::text::quoted;
use crate::text::same_text;

verus! {

/// The first value under a key.
pub open spec fn lookup(entries: Seq<(Seq<char>, Seq<char>)>, key: Seq<char>) -> Option<Seq<char>>
    decreases entries.len(),
{
    if entries.len() == 0 {
        None
    } else if entries[0].0 == key {
        Some(entries[0].1)
    } else {
        lookup(entries.skip(1), key)
    }
}

/// Why a request is refused.
#[derive(Debug)]
pub enum FlightRefusal {
    /// What must accompany the request under this key is not there.
    MissingMetadata(String),
    Unimplemented(String),
    Failed(ErrorCode),
}

pub open spec fn is_missing<T>(r: Result<T, FlightRefusal>, key: Seq<char>) -> bool {
    r matches Err(FlightRefusal::MissingMetadata(k)) && k@ == key
}

impl Metadata {
    /// The first value under a key.
    pub fn get_metadata(&self, key: &str) -> (r: Result<String, FlightRefusal>)
        ensures
            match lookup(self@, key@) {
                Some(value) => r matches Ok(v) && v@ == value,
                None => is_missing(r, key@),
            },
    {
        let mut i: usize = 0;
        assert(self@.skip(0) =~= self@);
        while i < self.entries.len()
            invariant
                i <= self.entries@.len(),
                lookup(self@, key@) == lookup(self@.skip(i as int), key@),
            decreases self.entries.len() - i,
        {
            if same_text(self.entries[i].0.as_str(), key) {
                return Ok(self.entries[i].1.clone());
            }
            assert(self@.skip(i as int).skip(1) =~= self@.skip(i + 1));
            i += 1;
        }
        Err(FlightRefusal::MissingMetadata(key.to_owned()))
    }
}

/// What is done for an exchange.
#[derive(Debug)]
pub enum ExchangeAction {
    Statistics { query_id: String, target: String, continue_from: usize, enable_retry: bool },
    Fragment { query_id: String, target: String, fragment: usize, continue_from: usize, enable_retry: bool },
    /// Answer with this alone.
    Health(FlightData),
}

/// Whether a value asks for retries: any number but zero.
pub open spec fn asks_for_retry(value: Seq<char>) -> bool {
    parsed(value, u64::MAX as nat) matches Some(n) && n != 0
}

/// A number that must be readable where it is there and what comes before it is.
pub open spec fn readable(entries: Seq<(Seq<char>, Seq<char>)>, key: Seq<char>) -> bool {
    lookup(entries, key) matches Some(v) ==> parsed(v, usize::MAX as nat) is Some
}

/// The numbers of an exchange can be read as far as they are looked at.
pub open spec fn exchange_readable(entries: Seq<(Seq<char>, Seq<char>)>) -> bool {
    lookup(entries, "x-type"@) matches Some(t) ==> (lookup(entries, "x-target"@) is Some && lookup(
        entries,
        "x-query-id"@,
    ) is Some ==> {
        &&& t == "request_server_exchange"@ ==> readable(entries, "x-continue-from"@)
        &&& t == "exchange_fragment"@ ==> {
            &&& readable(entries, "x-fragment-id"@)
            &&& lookup(entries, "x-fragment-id"@) is Some ==> readable(entries, "x-continue-from"@)
        }
    })
}

/// What an exchange comes to.
pub open spec fn exchange_result(
    entries: Seq<(Seq<char>, Seq<char>)>,
    r: Result<ExchangeAction, FlightRefusal>,
) -> bool {
    let target = lookup(entries, "x-target"@);
    let query_id = lookup(entries, "x-query-id"@);
    let fragment = lookup(entries, "x-fragment-id"@);
    let continue_from = lookup(entries, "x-continue-from"@);
    let enable_retry = lookup(entries, "x-enable-retry"@);
    match lookup(entries, "x-type"@) {
        None => is_missing(r, "x-type"@),
        Some(t) => if t == "request_server_exchange"@ {
            if target is None {
                is_missing(r, "x-target"@)
            } else if query_id is None {
                is_missing(r, "x-query-id"@)
            } else if continue_from is None {
                is_missing(r, "x-continue-from"@)
            } else if enable_retry is None {
                is_missing(r, "x-enable-retry"@)
            } else {
                r matches Ok(ExchangeAction::Statistics { query_id: q, target: d, continue_from: c, enable_retry: e })
                    && {
                    &&& q@ == query_id.unwrap()
                    &&& d@ == target.unwrap()
                    &&& parsed(continue_from.unwrap(), usize::MAX as nat) == Some(c as nat)
                    &&& e == asks_for_retry(enable_retry.unwrap())
                }
            }
        } else if t == "exchange_fragment"@ {
            if target is None {
                is_missing(r, "x-target"@)
            } else if query_id is None {
                is_missing(r, "x-query-id"@)
            } else if fragment is None {
                is_missing(r, "x-fragment-id"@)
            } else if continue_from is None {
                is_missing(r, "x-continue-from"@)
            } else if enable_retry is None {
                is_missing(r, "x-enable-retry"@)
            } else {
                r matches Ok(
                    ExchangeAction::Fragment { query_id: q, target: d, fragment: f, continue_from: c, enable_retry: e },
                ) && {
                    &&& q@ == query_id.unwrap()
                    &&& d@ == target.unwrap()
                    &&& parsed(fragment.unwrap(), usize::MAX as nat) == Some(f as nat)
                    &&& parsed(continue_from.unwrap(), usize::MAX as nat) == Some(c as nat)
                    &&& e == asks_for_retry(enable_retry.unwrap())
                }
            }
        } else if t == "health"@ {
            r matches Ok(ExchangeAction::Health(data)) && is_health_response(data)
        } else {
            r matches Err(FlightRefusal::Unimplemented(m)) && m@ == "Unimplemented exchange type: "@ + quoted(t)
        },
    }
}

/// The answer that says that all is well.
pub open spec fn is_health_response(data: FlightData) -> bool {
    &&& data.flight_descriptor is None
    &&& data.data_header@.len() == 0
    &&& data.data_body@ == seq![0x6fu8, 0x6bu8]
    &&& data.app_metadata@ == seq![3u8]
}

fn build_health_response() -> (r: FlightData)
    ensures
        is_health_response(r),
{
    let mut data_body: Vec<u8> = Vec::new();
    data_body.push(0x6f);
    data_body.push(0x6b);
    let mut app_metadata: Vec<u8> = Vec::new();
    app_metadata.push(3);
    let r = FlightData { flight_descriptor: None, data_header: Vec::new(), data_body, app_metadata };
    assert(r.data_body@ =~= seq![0x6fu8, 0x6bu8]);
    assert(r.app_metadata@ =~= seq![3u8]);
    r
}

/// That there is no exchange of a type, given in quotes.
pub fn unimplemented_exchange(shown_type: &str) -> (r: FlightRefusal)
    ensures
        r matches FlightRefusal::Unimplemented(m) && m@ == "Unimplemented exchange type: "@ + shown_type@,
{
    let m = concat("Unimplemented exchange type: ", shown_type, "", "");
    proof {
        reveal_strlit("");
        assert(m@ =~= "Unimplemented exchange type: "@ + shown_type@);
    }
    FlightRefusal::Unimplemented(m)
}

fn read_number(text: &str) -> (r: usize)
    requires
        parsed(text@, usize::MAX as nat) is Some,
    ensures
        parsed(text@, usize::MAX as nat) == Some(r as nat),
{
    match parse_number(text, usize::MAX as u64) {
        Some(n) => n as usize,
        None => 0,
    }
}

fn retry_wanted(text: &str) -> (r: bool)
    ensures
        r == asks_for_retry(text@),
{
    match parse_number(text, u64::MAX) {
        Some(n) => n != 0,
        None => false,
    }
}

/// What an exchange comes to.
pub fn do_exchange(request: &Metadata) -> (r: Result<ExchangeAction, FlightRefusal>)
    requires
        exchange_readable(request@),
    ensures
        exchange_result(request@, r),
{
    proof {
        reveal_strlit("request_server_exchange");
        reveal_strlit("exchange_fragment");
        reveal_strlit("health");
    }
    let exchange_type = match request.get_metadata("x-type") {
        Ok(t) => t,
        Err(e) => return Err(e),
    };
    if same_text(exchange_type.as_str(), "request_server_exchange") {
        let target = match request.get_metadata("x-target") {
            Ok(t) => t,
            Err(e) => return Err(e),
        };
        let query_id = match request.get_metadata("x-query-id") {
            Ok(t) => t,
            Err(e) => return Err(e),
        };
        let continue_from: usize = match request.get_metadata("x-continue-from") {
            Ok(t) => read_number(t.as_str()),
            Err(e) => return Err(e),
        };
        // any number but zero asks for retries
        let enable_retry = match request.get_metadata("x-enable-retry") {
            Ok(t) => retry_wanted(t.as_str()),
            Err(e) => return Err(e),
        };
        Ok(ExchangeAction::Statistics { query_id, target, continue_from, enable_retry })
    } else if same_text(exchange_type.as_str(), "exchange_fragment") {
        let target = match request.get_metadata("x-target") {
            Ok(t) => t,
            Err(e) => return Err(e),
        };
        let query_id = match request.get_metadata("x-query-id") {
            Ok(t) => t,
            Err(e) => return Err(e),
        };
        let fragment: usize = match request.get_metadata("x-fragment-id") {
            Ok(t) => read_number(t.as_str()),
            Err(e) => return Err(e),
        };
        let continue_from: usize = match request.get_metadata("x-continue-from") {
            Ok(t) => read_number(t.as_str()),
            Err(e) => return Err(e),
        };
        let enable_retry = match request.get_metadata("x-enable-retry") {
            Ok(t) => retry_wanted(t.as_str()),
            Err(e) => return Err(e),
        };
        Ok(ExchangeAction::Fragment { query_id, target, fragment, continue_from, enable_retry })
    } else if same_text(exchange_type.as_str(), "health") {
        Ok(ExchangeAction::Health(build_health_response()))
    } else {
        let shown = quote(exchange_type.as_str());
        Err(unimplemented_exchange(shown.as_str()))
    }
}

/// Whether an action may be done: only for those who know the secret of the node.
pub fn check_action(request: &Metadata, node_secret: &str, node_id: &str) -> (r: Result<(), FlightRefusal>)
    ensures
        match lookup(request@, "secret"@) {
            None => is_missing(r, "secret"@),
            Some(secret) => {
                &&& r is Ok <==> secret == node_secret@
                &&& secret != node_secret@ ==> (r matches Err(
                    FlightRefusal::Failed(ErrorCode::AuthenticateFailure(m)),
                ) && m@ == "authenticate failure while flight, node: "@ + node_id@)
            },
        },
{
    let secret = match request.get_metadata("secret") {
        Ok(s) => s,
        Err(e) => return Err(e),
    };
    if same_text(secret.as_str(), node_secret) {
        Ok(())
    } else {
        let m = concat("authenticate failure while flight, node: ", node_id, "", "");
        proof {
            reveal_strlit("");
            assert(m@ =~= "authenticate failure while flight, node: "@ + node_id@);
        }
        Err(FlightRefusal::Failed(ErrorCode::AuthenticateFailure(m)))
    }
}

/// A server reads from the request of a connection what the connection is for and where it goes
/// on, once the request says whether it is retried.
pub proof fn connection_request_is_understood(
    info: ConnectionView,
    seq: usize,
    retry: Seq<char>,
    r: Result<ExchangeAction, FlightRefusal>,
)
    requires
        exchange_result(connection_metadata(info, seq as nat).push(("x-enable-retry"@, retry)), r),
    ensures
        exchange_readable(connection_metadata(info, seq as nat).push(("x-enable-retry"@, retry))),
        match info.fragment {
            Some(f) => r matches Ok(
                ExchangeAction::Fragment { query_id, target, fragment, continue_from, enable_retry },
            ) && query_id@ == info.query_id && target@ == info.target && fragment == f && continue_from == seq
                && enable_retry == asks_for_retry(retry),
            None => r matches Ok(ExchangeAction::Statistics { query_id, target, continue_from, enable_retry })
                && query_id@ == info.query_id && target@ == info.target && continue_from == seq && enable_retry
                == asks_for_retry(retry),
        },
{
    let entries = connection_metadata(info, seq as nat).push(("x-enable-retry"@, retry));
    reveal_strlit("x-type");
    reveal_strlit("x-target");
    reveal_strlit("x-query-id");
    reveal_strlit("x-fragment-id");
    reveal_strlit("x-continue-from");
    reveal_strlit("x-enable-retry");
    reveal_strlit("request_server_exchange");
    reveal_strlit("exchange_fragment");
    reveal_strlit("health");
    assert("x-type"@.len() == 6 && "x-target"@.len() == 8 && "x-query-id"@.len() == 10
        && "x-fragment-id"@.len() == 13 && "x-continue-from"@.len() == 15 && "x-enable-retry"@.len() == 14);
    assert("request_server_exchange"@.len() == 23 && "exchange_fragment"@.len() == 17);
    reveal_with_fuel(lookup, 7);
    decimal_is_parsed_back(seq as nat, usize::MAX as nat);
    match info.fragment {
        Some(f) => {
            decimal_is_parsed_back(f as nat, usize::MAX as nat);
            assert(lookup(entries, "x-fragment-id"@) == Some(decimal(f as nat)));
        },
        None => {
            assert(lookup(entries, "x-type"@) == Some("request_server_exchange"@));
        },
    }
}

/// What accompanies a request is looked up by its key: the first entry with the key counts.
pub proof fn the_first_entry_with_a_key_counts(entries: Seq<(Seq<char>, Seq<char>)>, key: Seq<char>)
    ensures
        match lookup(entries, key) {
            Some(value) => exists|i: int|
                {
                    &&& 0 <= i < entries.len()
                    &&& #[trigger] entries[i] == (key, value)
                    &&& forall|j: int| 0 <= j < i ==> (#[trigger] entries[j]).0 != key
                },
            None => forall|j: int| 0 <= j < entries.len() ==> (#[trigger] entries[j]).0 != key,
        },
    decreases entries.len(),
{
    if entries.len() > 0 {
        if entries[0].0 == key {
            assert(entries[0] == (key, entries[0].1));
        } else {
            let rest = entries.skip(1);
            the_first_entry_with_a_key_counts(rest, key);
            let end = match lookup(rest, key) {
                Some(value) => {
                    let i = choose|i: int|
                        {
                            &&& 0 <= i < rest.len()
                            &&& #[trigger] rest[i] == (key, value)
                            &&& forall|j: int| 0 <= j < i ==> (#[trigger] rest[j]).0 != key
                        };
                    assert(entries[i + 1] == rest[i]);
                    i + 1
                },
                None => entries.len() as int,
            };
            assert forall|j: int| 0 <= j < end implies (#[trigger] entries[j]).0 != key by {
                if j > 0 {
                    assert(entries[j] == rest[j - 1]);
                }
            }
        }
    }
}

/// A request asks to be retried by any number but zero.
pub proof fn any_number_but_zero_asks_for_retry(n: u64)
    ensures
        asks_for_retry(decimal(n as nat)) <==> n != 0,
{
    decimal_is_parsed_back(n as nat, u64::MAX as nat);
}

/// A request for an exchange that lacks something is refused, and told what it lacks: its type
/// before all, then where it goes and which query it is of, then the fragment of an exchange of
/// fragments, then where it goes on, and at last whether it is retried.
pub proof fn an_incomplete_request_is_told_what_it_lacks(
    entries: Seq<(Seq<char>, Seq<char>)>,
    r: Result<ExchangeAction, FlightRefusal>,
)
    requires
        exchange_result(entries, r),
    ensures
        ({
            let stands = |key: Seq<char>| exists|i: int| 0 <= i < entries.len() && (#[trigger] entries[i]).0 == key;
            let lacks = |key: Seq<char>| r matches Err(FlightRefusal::MissingMetadata(k)) && k@ == key;
            &&& !stands("x-type"@) ==> lacks("x-type"@)
            &&& r is Ok && !(r->Ok_0 is Health) ==> stands("x-target"@) && stands("x-query-id"@) && stands("x-continue-from"@) && stands(
                "x-enable-retry"@,
            )
            &&& r matches Ok(ExchangeAction::Fragment { .. }) ==> stands("x-fragment-id"@)
        }),
{
    the_first_entry_with_a_key_counts(entries, "x-type"@);
    the_first_entry_with_a_key_counts(entries, "x-target"@);
    the_first_entry_with_a_key_counts(entries, "x-query-id"@);
    the_first_entry_with_a_key_counts(entries, "x-fragment-id"@);
    the_first_entry_with_a_key_counts(entries, "x-continue-from"@);
    the_first_entry_with_a_key_counts(entries, "x-enable-retry"@);
}

/// To the question whether all is well the answer has the two letters `ok` and nothing before them.
pub proof fn all_is_well_is_said_in_two_letters(data: FlightData)
    requires
        is_health_response(data),
    ensures
        data.data_body@.len() == 2,
        data.data_body@[0] as int == 'o' as int && data.data_body@[1] as int == 'k' as int,
        data.data_header@.len() == 0,
        data.flight_descriptor is None,
        data.app_metadata@ == seq![3u8],
{
}

}
