//! The order in which a request is tried: every endpoint in turn, each a few times with
//! growing pauses, until one answers or all are used up.
use vstd::prelude::*;

verus! {

/// How often one endpoint is tried before the next one.
pub const MAX_RPC_RETRIES: usize = 3;

/// Where a request stands: which endpoint is being tried, for which time (counted from
/// one), and what went wrong last.
pub struct Attempts {
    endpoint: usize,
    attempt: usize,
    last_error: String,
}

/// [`Attempts`] as mathematics.
pub struct AttemptsView {
    pub endpoint: int,
    pub attempt: int,
    pub last_error: Seq<char>,
}

impl View for Attempts {
    type V = AttemptsView;

    closed spec fn view(&self) -> AttemptsView {
        AttemptsView {
            endpoint: self.endpoint as int,
            attempt: self.attempt as int,
            last_error: self.last_error@,
        }
    }
}

impl Attempts {
    /// Which endpoint is being tried.
    pub fn endpoint(&self) -> (endpoint: usize)
        ensures
            endpoint == self@.endpoint,
    {
        self.endpoint
    }

    /// What went wrong last.
    pub fn last_error(&self) -> (error: &str)
        ensures
            error@ == self@.last_error,
    {
        self.last_error.as_str()
    }
}

/// What to do next.
pub enum Next {
    /// Wait, then send the request to this endpoint. `abandoned` is an endpoint that has
    /// just been tried for the last time.
    Send { endpoint: usize, delay_ms: u64, abandoned: Option<usize> },
    /// There is no endpoint left.
    GiveUp { error: String, abandoned: Option<usize> },
}

/// [`Next`] as mathematics.
pub enum NextView {
    Send { endpoint: int, delay_ms: int, abandoned: Option<int> },
    GiveUp { error: Seq<char>, abandoned: Option<int> },
}

/// An optional index as mathematics.
pub open spec fn index_view(index: Option<usize>) -> Option<int> {
    match index {
        Some(i) => Some(i as int),
        None => None,
    }
}

impl View for Next {
    type V = NextView;

    open spec fn view(&self) -> NextView {
        match self {
            Next::Send { endpoint, delay_ms, abandoned } => NextView::Send {
                endpoint: *endpoint as int,
                delay_ms: *delay_ms as int,
                abandoned: index_view(*abandoned),
            },
            Next::GiveUp { error, abandoned } => NextView::GiveUp {
                error: error@,
                abandoned: index_view(*abandoned),
            },
        }
    }
}

impl AttemptsView {
    /// Whether this is a place in the trying of `endpoints` endpoints.
    pub open spec fn within(self, endpoints: int) -> bool {
        &&& 0 <= self.endpoint < endpoints
        &&& 1 <= self.attempt <= MAX_RPC_RETRIES
    }
}

/// The first place and the first thing to do, with an error to give up with where there is
/// no endpoint at all.
pub open spec fn first_attempt(endpoints: int, error: Seq<char>) -> (AttemptsView, NextView) {
    (
        AttemptsView { endpoint: 0, attempt: 1, last_error: error },
        if endpoints == 0 {
            NextView::GiveUp { error, abandoned: None }
        } else {
            NextView::Send { endpoint: 0, delay_ms: 0, abandoned: None }
        },
    )
}

/// The place and the thing to do after an attempt that failed with `error`: the same
/// endpoint again after a pause, or the next endpoint at once, or nothing more.
pub open spec fn next_attempt(
    at: AttemptsView,
    endpoints: int,
    pause_ms: int,
    error: Seq<char>,
) -> (AttemptsView, NextView) {
    if at.attempt < MAX_RPC_RETRIES {
        (
            AttemptsView { attempt: at.attempt + 1, last_error: error, ..at },
            NextView::Send {
                endpoint: at.endpoint,
                delay_ms: pause_ms * at.attempt,
                abandoned: None,
            },
        )
    } else if at.endpoint + 1 < endpoints {
        (
            AttemptsView { endpoint: at.endpoint + 1, attempt: 1, last_error: error },
            NextView::Send {
                endpoint: at.endpoint + 1,
                delay_ms: 0,
                abandoned: Some(at.endpoint),
            },
        )
    } else {
        (
            AttemptsView { last_error: error, ..at },
            NextView::GiveUp { error, abandoned: Some(at.endpoint) },
        )
    }
}

/// Starts the trying of `endpoints` endpoints.
pub fn begin(endpoints: usize, error: &str) -> (r: (Attempts, Next))
    ensures
        (r.0@, r.1@) == first_attempt(endpoints as int, error@),
{
    let attempts = Attempts { endpoint: 0, attempt: 1, last_error: error.to_owned() };
    if endpoints == 0 {
        (attempts, Next::GiveUp { error: error.to_owned(), abandoned: None })
    } else {
        (attempts, Next::Send { endpoint: 0, delay_ms: 0, abandoned: None })
    }
}

/// Goes on after an attempt that failed with `error`.
pub fn after_failure(at: Attempts, endpoints: usize, pause_ms: u32, error: String) -> (r: (
    Attempts,
    Next,
))
    requires
        at@.within(endpoints as int),
    ensures
        (r.0@, r.1@) == next_attempt(at@, endpoints as int, pause_ms as int, error@),
{
    if at.attempt < MAX_RPC_RETRIES {
        assert(pause_ms * at.attempt <= u32::MAX * 3) by (nonlinear_arith)
            requires
                at.attempt <= 3,
                pause_ms <= u32::MAX,
        ;
        let delay_ms: u64 = pause_ms as u64 * at.attempt as u64;
        (
            Attempts { endpoint: at.endpoint, attempt: at.attempt + 1, last_error: error },
            Next::Send { endpoint: at.endpoint, delay_ms, abandoned: None },
        )
    } else if at.endpoint + 1 < endpoints {
        (
            Attempts { endpoint: at.endpoint + 1, attempt: 1, last_error: error },
            Next::Send { endpoint: at.endpoint + 1, delay_ms: 0, abandoned: Some(at.endpoint) },
        )
    } else {
        let endpoint = at.endpoint;
        (
            Attempts { endpoint, attempt: at.attempt, last_error: error.clone() },
            Next::GiveUp { error, abandoned: Some(endpoint) },
        )
    }
}

/// Where the trying stands after a row of failed attempts, and what is to be done then.
pub open spec fn after_failures(
    endpoints: int,
    pause_ms: int,
    first_error: Seq<char>,
    errors: Seq<Seq<char>>,
) -> (AttemptsView, NextView)
    decreases errors.len(),
{
    if errors.len() == 0 {
        first_attempt(endpoints, first_error)
    } else {
        let (at, _) = after_failures(endpoints, pause_ms, first_error, errors.drop_last());
        next_attempt(at, endpoints, pause_ms, errors.last())
    }
}

/// A request is sent at most as often as there are endpoints times tries: the attempt that
/// follows `k` failed ones goes to the endpoint `k / MAX_RPC_RETRIES`; between two attempts
/// at one endpoint there is a pause that grows with their number, and none before the first.
pub proof fn attempts_go_through_the_endpoints(
    endpoints: int,
    pause_ms: int,
    first_error: Seq<char>,
    errors: Seq<Seq<char>>,
)
    requires
        errors.len() < endpoints * MAX_RPC_RETRIES,
    ensures
        ({
            let k = errors.len() as int;
            let (at, next) = after_failures(endpoints, pause_ms, first_error, errors);
            &&& at.within(endpoints)
            &&& at.endpoint == k / (MAX_RPC_RETRIES as int)
            &&& at.attempt == k % (MAX_RPC_RETRIES as int) + 1
            &&& next == NextView::Send {
                endpoint: at.endpoint,
                delay_ms: pause_ms * (at.attempt - 1),
                abandoned: if at.attempt == 1 && k > 0 {
                    Some(at.endpoint - 1)
                } else {
                    None
                },
            }
        }),
    decreases errors.len(),
{
    if errors.len() > 0 {
        attempts_go_through_the_endpoints(endpoints, pause_ms, first_error, errors.drop_last());
    } else {
        assert(pause_ms * 0 == 0) by (nonlinear_arith);
    }
}

/// When every attempt at every endpoint has failed, the request is given up with the error
/// of the last attempt.
pub proof fn giving_up_reports_the_last_error(
    endpoints: int,
    pause_ms: int,
    first_error: Seq<char>,
    errors: Seq<Seq<char>>,
)
    requires
        endpoints > 0,
        errors.len() == endpoints * MAX_RPC_RETRIES,
    ensures
        after_failures(endpoints, pause_ms, first_error, errors).1 == (NextView::GiveUp {
            error: errors.last(),
            abandoned: Some(endpoints - 1),
        }),
{
    attempts_go_through_the_endpoints(endpoints, pause_ms, first_error, errors.drop_last());
}

/// A request begins with the first attempt at the first endpoint, at once; without endpoints
/// it is given up.
pub proof fn the_first_attempt_is_made_at_once(endpoints: int, error: Seq<char>)
    ensures
        ({
            let (at, next) = first_attempt(endpoints, error);
            &&& at.endpoint == 0
            &&& at.attempt == 1
            &&& at.last_error == error
            &&& endpoints == 0 ==> next == (NextView::GiveUp { error, abandoned: None })
            &&& endpoints > 0 ==> next == (NextView::Send {
                endpoint: 0,
                delay_ms: 0,
                abandoned: None,
            })
        }),
{
}

/// An endpoint is tried three times: after the first failure there is one pause, after the
/// second one twice as long. After the third the next endpoint is tried at once, and after
/// that of the last endpoint the request is given up, with the error of this very failure.
pub proof fn an_endpoint_is_tried_three_times(
    at: AttemptsView,
    endpoints: int,
    pause_ms: int,
    error: Seq<char>,
)
    requires
        at.within(endpoints),
    ensures
        0 <= at.endpoint < endpoints,
        1 <= at.attempt <= 3,
        ({
            let (after, next) = next_attempt(at, endpoints, pause_ms, error);
            &&& after.last_error == error
            &&& at.attempt == 1 ==> {
                &&& after.endpoint == at.endpoint && after.attempt == 2
                &&& next == NextView::Send {
                    endpoint: at.endpoint,
                    delay_ms: pause_ms,
                    abandoned: None,
                }
            }
            &&& at.attempt == 2 ==> {
                &&& after.endpoint == at.endpoint && after.attempt == 3
                &&& next == NextView::Send {
                    endpoint: at.endpoint,
                    delay_ms: 2 * pause_ms,
                    abandoned: None,
                }
            }
            &&& at.attempt == 3 && at.endpoint < endpoints - 1 ==> {
                &&& after.endpoint == at.endpoint + 1 && after.attempt == 1
                &&& next == NextView::Send {
                    endpoint: at.endpoint + 1,
                    delay_ms: 0,
                    abandoned: Some(at.endpoint),
                }
            }
            &&& at.attempt == 3 && at.endpoint == endpoints - 1 ==> next == NextView::GiveUp {
                error,
                abandoned: Some(at.endpoint),
            }
        }),
{
    assert(pause_ms * 1 == pause_ms) by (nonlinear_arith);
    assert(pause_ms * 2 == 2 * pause_ms) by (nonlinear_arith);
}

/// Every endpoint and each of three attempts at it is a place in the trying.
pub proof fn all_places_are_within(at: AttemptsView, endpoints: int)
    ensures
        at.within(endpoints) <==> 0 <= at.endpoint < endpoints && (at.attempt == 1 || at.attempt
            == 2 || at.attempt == 3),
{
}

/// What is to be done next is taken as it is: the endpoint, the pause and the endpoint that
/// is left behind, or the error.
pub proof fn what_is_next_is_taken_as_it_is(
    endpoint: usize,
    delay_ms: u64,
    abandoned: Option<usize>,
    error: String,
)
    ensures
        (Next::Send { endpoint, delay_ms, abandoned })@ matches NextView::Send {
            endpoint: e,
            delay_ms: d,
            abandoned: a,
        } && e == endpoint && d == delay_ms && (abandoned is Some <==> a is Some) && (
        abandoned matches Some(i) ==> a == Some(i as int)),
        (Next::GiveUp { error, abandoned })@ matches NextView::GiveUp { error: e, abandoned: a }
            && e == error@ && (abandoned is Some <==> a is Some) && (abandoned matches Some(i)
            ==> a == Some(i as int)),
{
}

} // verus!
