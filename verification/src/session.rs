use vstd::prelude::*;

use crate::error::HidppError;
use crate::features::{feature_index_reply, long_request, reply_outcome};
use crate::report::HidppReport;
use crate::transport::TransportEvent;

verus! {

/// A request as feature access makes it: feature index, function, parameters.
pub type Call = (u8, u8, Seq<u8>);

/// The parameters of the reply to a request, or the error the request ended in.
pub type Reply = Result<Seq<u8>, HidppError>;

/// Chooses the next request of a session at the feature's index, from the
/// replies so far (function and parameters), or none to end the session.
pub type Plan = spec_fn(Seq<Seq<u8>>) -> Option<(u8, Seq<u8>)>;

/// The most reads a request waits through for its answer.
pub open spec fn max_reads() -> int {
    10
}

/// The length of the buffer a request reads each report into.
pub open spec fn read_buffer_len() -> usize {
    64
}

/// The timeout of every request that feature methods make, in milliseconds.
pub open spec fn request_timeout() -> i32 {
    2000
}

/// A read that a request makes: with its timeout, into a buffer of 64 bytes.
pub open spec fn read_with(e: TransportEvent, timeout_ms: i32) -> bool {
    e matches TransportEvent::Read(t, n, _) && t == timeout_ms && n == read_buffer_len()
}

/// What one read means to a pending request with timeout `timeout_ms`:
/// `Some` ends the wait with that outcome (a read error, a timeout on an
/// empty read, an unparseable frame, a device error about the feature, or the
/// answer); `None` skips the frame, or the event is no such read.
pub open spec fn read_end(e: TransportEvent, device: u8, feature: u8, function: u8, timeout_ms: i32) -> Option<
    Result<(Seq<u8>, usize), HidppError>,
> {
    if !read_with(e, timeout_ms) {
        None
    } else {
        match e {
            TransportEvent::Read(_, _, Err(x)) => Some(Err(x)),
            TransportEvent::Read(_, _, Ok(bytes)) => if bytes.len() == 0 {
                Some(Err(HidppError::Timeout))
            } else {
                match reply_outcome(bytes, device, feature, function) {
                    Err(x) => Some(Err(x)),
                    Ok(Some(p)) => Some(Ok(p)),
                    Ok(None) => None,
                }
            },
            TransportEvent::Write(_, _) => None,
        }
    }
}

/// A read that the pending request skips (a notification or another answer).
pub open spec fn skipped(e: TransportEvent, device: u8, feature: u8, function: u8, timeout_ms: i32) -> bool {
    read_with(e, timeout_ms) && read_end(e, device, feature, function, timeout_ms) is None
}

/// The end of waiting over `reads`: every read but the last is skipped, and
/// the last ends the wait, or is the tenth skipped read, which times out.
/// `None` where `reads` is no complete wait.
pub open spec fn wait_result(reads: Seq<TransportEvent>, device: u8, feature: u8, function: u8, timeout_ms: i32) -> Option<
    Result<(Seq<u8>, usize), HidppError>,
> {
    if 1 <= reads.len() <= max_reads() && forall|k: int|
        0 <= k < reads.len() - 1 ==> skipped(#[trigger] reads[k], device, feature, function, timeout_ms) {
        match read_end(reads.last(), device, feature, function, timeout_ms) {
            Some(o) => Some(o),
            None => if reads.len() == max_reads() && skipped(reads.last(), device, feature, function, timeout_ms) {
                Some(Err(HidppError::Timeout))
            } else {
                None
            },
        }
    } else {
        None
    }
}

/// The outcome of a request over the transport events it made: one write of
/// `frame`; a write error ends it, else the wait for the answer follows.
/// `None` where `ev` is no complete request.
pub open spec fn request_result(
    frame: Seq<u8>,
    device: u8,
    feature: u8,
    function: u8,
    timeout_ms: i32,
    ev: Seq<TransportEvent>,
) -> Option<
    Result<(Seq<u8>, usize), HidppError>,
> {
    if ev.len() == 0 {
        None
    } else {
        match ev[0] {
            TransportEvent::Write(w, Err(x)) => if w == frame && ev.len() == 1 {
                Some(Err(x))
            } else {
                None
            },
            TransportEvent::Write(w, Ok(_)) => if w == frame {
                wait_result(ev.drop_first(), device, feature, function, timeout_ms)
            } else {
                None
            },
            TransportEvent::Read(_, _, _) => None,
        }
    }
}

/// A request's result as report bytes and length.
pub open spec fn reply_view(r: Result<HidppReport, HidppError>) -> Result<(Seq<u8>, usize), HidppError> {
    match r {
        Ok(resp) => Ok((resp.data@, resp.len)),
        Err(e) => Err(e),
    }
}

/// A request's result as reply parameters.
pub open spec fn params_view(r: Result<HidppReport, HidppError>) -> Reply {
    match r {
        Ok(resp) => Ok(resp.param_bytes()),
        Err(e) => Err(e),
    }
}

/// The reply to a long request `call` over the events `ev` it made.
pub open spec fn call_result(device: u8, call: Call, ev: Seq<TransportEvent>) -> Option<Reply> {
    match request_result(long_request(device, call.0, call.1, call.2), device, call.0, call.1, request_timeout(), ev) {
        Some(Ok((data, len))) => Some(Ok(data.subrange(4, len as int))),
        Some(Err(e)) => Some(Err(e)),
        None => None,
    }
}

/// `cuts` splits `ev` into the events of the requests `calls`, in order,
/// each answered with the reply in `outs`.
pub open spec fn call_cuts(device: u8, calls: Seq<Call>, outs: Seq<Reply>, ev: Seq<TransportEvent>, cuts: Seq<int>) -> bool {
    &&& outs.len() == calls.len()
    &&& cuts.len() == calls.len() + 1
    &&& cuts[0] == 0
    &&& cuts[calls.len() as int] == ev.len()
    &&& forall|i: int|
        0 <= i < calls.len() ==> 0 <= cuts[i] && cuts[i] <= cuts[i + 1] && cuts[i + 1] <= ev.len() && call_result(
            device,
            #[trigger] calls[i],
            ev.subrange(cuts[i], cuts[i + 1]),
        ) == Some(outs[i])
}

/// `ev` is the events of the requests `calls`, in order, with replies `outs`.
pub open spec fn calls_events(device: u8, calls: Seq<Call>, outs: Seq<Reply>, ev: Seq<TransportEvent>) -> bool {
    exists|cuts: Seq<int>| #[trigger] call_cuts(device, calls, outs, ev, cuts)
}

/// The IRoot.GetFeatureIndex request for a feature ID.
pub open spec fn lookup_call(feature_id: u16) -> Call {
    (0u8, 0u8, seq![(feature_id >> 8u16) as u8, (feature_id & 0xFFu16) as u8])
}

/// The feature index a lookup reply gives, or its error.
pub open spec fn lookup_outcome(o: Reply, feature_id: u16) -> Result<u8, HidppError> {
    match o {
        Ok(p) => feature_index_reply(p, feature_id),
        Err(e) => Err(e),
    }
}

/// The feature index a lookup over the events `ev` gives, or its error.
pub open spec fn lookup_result(device: u8, feature_id: u16, ev: Seq<TransportEvent>) -> Option<Result<u8, HidppError>> {
    match call_result(device, lookup_call(feature_id), ev) {
        Some(o) => Some(lookup_outcome(o, feature_id)),
        None => None,
    }
}

/// The reply parameters of successful replies.
pub open spec fn oks(outs: Seq<Reply>) -> Seq<Seq<u8>> {
    outs.map_values(|o: Reply| match o {
        Ok(p) => p,
        Err(_) => Seq::empty(),
    })
}

/// The error of a failed reply.
pub open spec fn err_of(o: Reply) -> HidppError {
    match o {
        Err(e) => e,
        Ok(_) => HidppError::Timeout,
    }
}

/// A session under way: the lookup of `feature_id` found `fi`, and each later
/// request went to `fi` as `next` chose it from the replies before it, and was answered.
pub open spec fn session_prefix(feature_id: u16, next: Plan, fi: u8, calls: Seq<Call>, outs: Seq<Reply>) -> bool {
    &&& calls.len() >= 1
    &&& outs.len() == calls.len()
    &&& calls[0] == lookup_call(feature_id)
    &&& lookup_outcome(outs[0], feature_id) == Ok::<u8, HidppError>(fi)
    &&& forall|j: int| 1 <= j < outs.len() ==> #[trigger] outs[j] is Ok
    &&& forall|j: int|
        1 <= j < calls.len() ==> (#[trigger] calls[j]).0 == fi && next(oks(outs.subrange(1, j)))
            == Some((calls[j].1, calls[j].2))
}

/// The replies of a session under way, after the lookup.
pub open spec fn session_replies(outs: Seq<Reply>) -> Seq<Seq<u8>> {
    oks(outs.skip(1))
}

/// A feature session over the events `ev`: a lookup of `feature_id`, then the
/// requests that `next` chooses at the index found, until it chooses none
/// (the result is the replies) or a request fails (the result is its error).
/// A failed lookup ends the session with its error.
pub open spec fn session(device: u8, feature_id: u16, next: Plan, ev: Seq<TransportEvent>, result: Result<
    Seq<Seq<u8>>,
    HidppError,
>) -> bool {
    exists|calls: Seq<Call>, outs: Seq<Reply>|
        #![trigger calls_events(device, calls, outs, ev)]
        calls_events(device, calls, outs, ev) && calls.len() >= 1 && outs.len() == calls.len()
            && calls[0] == lookup_call(feature_id) && match lookup_outcome(outs[0], feature_id) {
            Err(e) => calls.len() == 1 && result == Err::<Seq<Seq<u8>>, HidppError>(e),
            Ok(fi) => {
                &&& session_prefix(feature_id, next, fi, calls.drop_last(), outs.drop_last()) || calls.len() == 1
                &&& if calls.len() == 1 {
                    next(Seq::empty()) is None && result == Ok::<Seq<Seq<u8>>, HidppError>(Seq::empty())
                } else {
                    &&& calls.last().0 == fi
                    &&& next(session_replies(outs.drop_last())) == Some((calls.last().1, calls.last().2))
                    &&& match outs.last() {
                        Err(e) => result == Err::<Seq<Seq<u8>>, HidppError>(e),
                        Ok(p) => next(session_replies(outs)) is None && result == Ok::<
                            Seq<Seq<u8>>,
                            HidppError,
                        >(session_replies(outs)),
                    }
                }
            },
        }
}

/// A plan of one request.
pub open spec fn one_call(function: u8, params: Seq<u8>) -> Plan {
    |r: Seq<Seq<u8>>| if r.len() == 0 { Some((function, params)) } else { None }
}

// ── Lemmas ──

/// One more request extends the events of a run of requests.
pub proof fn lemma_calls_push(
    device: u8,
    calls: Seq<Call>,
    outs: Seq<Reply>,
    ev: Seq<TransportEvent>,
    call: Call,
    o: Reply,
    ev2: Seq<TransportEvent>,
)
    requires
        calls_events(device, calls, outs, ev),
        call_result(device, call, ev2) == Some(o),
    ensures
        calls_events(device, calls.push(call), outs.push(o), ev + ev2),
{
    let cuts = choose|cuts: Seq<int>| call_cuts(device, calls, outs, ev, cuts);
    let all = ev + ev2;
    let c2 = calls.push(call);
    let o2 = outs.push(o);
    let cuts2 = cuts.push(all.len() as int);
    assert forall|i: int| 0 <= i < c2.len() implies 0 <= cuts2[i] && cuts2[i] <= cuts2[i + 1] && cuts2[i + 1] <= all.len() && call_result(
        device,
        #[trigger] c2[i],
        all.subrange(cuts2[i], cuts2[i + 1]),
    ) == Some(o2[i]) by {
        if i < calls.len() {
            assert(c2[i] == calls[i]);
            assert(o2[i] == outs[i]);
            assert(call_result(device, calls[i], ev.subrange(cuts[i], cuts[i + 1])) == Some(outs[i]));
            assert(all.subrange(cuts2[i], cuts2[i + 1]) =~= ev.subrange(cuts[i], cuts[i + 1]));
        } else {
            assert(all.subrange(cuts2[i], cuts2[i + 1]) =~= ev2);
        }
    }
    assert(call_cuts(device, c2, o2, all, cuts2));
}

/// A write of the frame, then reads that all are skipped but the last, which
/// ends the wait: the request ends with what that read gives.
pub proof fn lemma_request_ends(
    frame: Seq<u8>,
    device: u8,
    feature: u8,
    function: u8,
    timeout_ms: i32,
    wrote: TransportEvent,
    reads: Seq<TransportEvent>,
    o: Result<(Seq<u8>, usize), HidppError>,
)
    requires
        wrote matches TransportEvent::Write(w, Ok(_)) && w == frame,
        1 <= reads.len() <= max_reads(),
        forall|k: int| 0 <= k < reads.len() - 1 ==> skipped(#[trigger] reads[k], device, feature, function, timeout_ms),
        read_end(reads.last(), device, feature, function, timeout_ms) == Some(o),
    ensures
        request_result(frame, device, feature, function, timeout_ms, seq![wrote] + reads) == Some(o),
{
    assert((seq![wrote] + reads).drop_first() =~= reads);
    assert((seq![wrote] + reads)[0] == wrote);
}

/// A request writes once, first, the frame it was given, and then only
/// reads, at most ten, each with the request's timeout into a 64-byte buffer.
pub proof fn lemma_request_writes_once(
    frame: Seq<u8>,
    device: u8,
    feature: u8,
    function: u8,
    timeout_ms: i32,
    ev: Seq<TransportEvent>,
)
    requires
        request_result(frame, device, feature, function, timeout_ms, ev) is Some,
    ensures
        ev.len() >= 1,
        ev[0] matches TransportEvent::Write(w, _) && w == frame,
        ev.len() <= 1 + max_reads(),
        forall|i: int| 1 <= i < ev.len() ==> read_with(#[trigger] ev[i], timeout_ms),
{
    if ev[0] matches TransportEvent::Write(_, Ok(_)) {
        let reads = ev.drop_first();
        assert forall|i: int| 1 <= i < ev.len() implies read_with(#[trigger] ev[i], timeout_ms) by {
            assert(ev[i] == reads[i - 1]);
            if i - 1 < reads.len() - 1 {
                assert(skipped(reads[i - 1], device, feature, function, timeout_ms));
            }
        }
    }
}

/// A request ends where its answer, error or tenth skipped read stands: no
/// complete request of a frame is a proper prefix of another.
pub proof fn lemma_request_ends_once(
    frame: Seq<u8>,
    device: u8,
    feature: u8,
    function: u8,
    timeout_ms: i32,
    ev1: Seq<TransportEvent>,
    ev2: Seq<TransportEvent>,
)
    requires
        request_result(frame, device, feature, function, timeout_ms, ev1) is Some,
        request_result(frame, device, feature, function, timeout_ms, ev1 + ev2) is Some,
    ensures
        ev2.len() == 0,
{
    let e = ev1 + ev2;
    if ev2.len() > 0 {
        assert(e[0] == ev1[0]);
        if ev1[0] matches TransportEvent::Write(_, Ok(_)) {
            let r1 = ev1.drop_first();
            let r = e.drop_first();
            assert(r =~= r1 + ev2);
            let last = r1.len() - 1;
            assert(r[last] == r1.last());
            assert(skipped(r[last], device, feature, function, timeout_ms));
        }
    }
}

/// No requests, no events.
pub proof fn lemma_calls_empty(device: u8)
    ensures
        calls_events(device, Seq::empty(), Seq::empty(), Seq::empty()),
{
    assert(call_cuts(device, Seq::empty(), Seq::empty(), Seq::empty(), seq![0int]));
}

/// The events of a single request.
pub proof fn lemma_calls_single(device: u8, call: Call, o: Reply, ev: Seq<TransportEvent>)
    requires
        call_result(device, call, ev) == Some(o),
    ensures
        calls_events(device, seq![call], seq![o], ev),
{
    assert(call_cuts(device, Seq::empty(), Seq::empty(), Seq::empty(), seq![0int]));
    lemma_calls_push(device, Seq::empty(), Seq::empty(), Seq::empty(), call, o, ev);
    assert(Seq::<Call>::empty().push(call) =~= seq![call]);
    assert(Seq::<Reply>::empty().push(o) =~= seq![o]);
    assert(Seq::<TransportEvent>::empty() + ev =~= ev);
}

/// A failed lookup ends any session on the feature with its error.
pub proof fn lemma_session_lookup_failed(device: u8, feature_id: u16, next: Plan, ev: Seq<TransportEvent>)
    requires
        lookup_result(device, feature_id, ev) matches Some(Err(_)),
    ensures
        session(device, feature_id, next, ev, Err(lookup_result(device, feature_id, ev)->Some_0->Err_0)),
{
    let o = call_result(device, lookup_call(feature_id), ev)->Some_0;
    lemma_calls_single(device, lookup_call(feature_id), o, ev);
    assert(seq![lookup_call(feature_id)][0] == lookup_call(feature_id));
    assert(seq![o][0] == o);
}

/// A successful lookup starts a session.
pub proof fn lemma_session_start(device: u8, feature_id: u16, next: Plan, ev: Seq<TransportEvent>) -> (r: (
    Seq<Call>,
    Seq<Reply>,
))
    requires
        lookup_result(device, feature_id, ev) matches Some(Ok(_)),
    ensures
        calls_events(device, r.0, r.1, ev),
        session_prefix(feature_id, next, lookup_result(device, feature_id, ev)->Some_0->Ok_0, r.0, r.1),
        session_replies(r.1) == Seq::<Seq<u8>>::empty(),
        r.0.len() == 1,
{
    let o = call_result(device, lookup_call(feature_id), ev)->Some_0;
    lemma_calls_single(device, lookup_call(feature_id), o, ev);
    let calls = seq![lookup_call(feature_id)];
    let outs = seq![o];
    assert(calls[0] == lookup_call(feature_id));
    assert(outs[0] == o);
    assert(session_replies(outs) =~= Seq::<Seq<u8>>::empty());
    (calls, outs)
}

/// An answered request that the plan chose keeps the session under way.
pub proof fn lemma_session_step(feature_id: u16, next: Plan, fi: u8, calls: Seq<Call>, outs: Seq<Reply>, call: Call, p: Seq<u8>)
    requires
        session_prefix(feature_id, next, fi, calls, outs),
        call.0 == fi,
        next(session_replies(outs)) == Some((call.1, call.2)),
    ensures
        session_prefix(feature_id, next, fi, calls.push(call), outs.push(Ok(p))),
        session_replies(outs.push(Ok(p))) == session_replies(outs).push(p),
{
    let c2 = calls.push(call);
    let o2 = outs.push(Ok(p));
    assert(o2.skip(1) =~= outs.skip(1).push(Ok(p)));
    assert(session_replies(o2) =~= session_replies(outs).push(p));
    assert forall|j: int| 1 <= j < o2.len() implies #[trigger] o2[j] is Ok by {
        if j < outs.len() {
            assert(o2[j] == outs[j]);
        }
    }
    assert forall|j: int| 1 <= j < c2.len() implies (#[trigger] c2[j]).0 == fi && next(oks(o2.subrange(1, j))) == Some((c2[j].1, c2[j].2)) by {
        if j < calls.len() {
            assert(o2.subrange(1, j) =~= outs.subrange(1, j));
            assert(c2[j] == calls[j]);
        } else {
            assert(o2.subrange(1, j) =~= outs.skip(1));
        }
    }
}

/// A failed request that the plan chose ends the session with its error.
pub proof fn lemma_session_failed(
    device: u8,
    feature_id: u16,
    next: Plan,
    fi: u8,
    calls: Seq<Call>,
    outs: Seq<Reply>,
    call: Call,
    e: HidppError,
    ev: Seq<TransportEvent>,
)
    requires
        session_prefix(feature_id, next, fi, calls, outs),
        call.0 == fi,
        next(session_replies(outs)) == Some((call.1, call.2)),
        calls_events(device, calls.push(call), outs.push(Err(e)), ev),
    ensures
        session(device, feature_id, next, ev, Err(e)),
{
    let c2 = calls.push(call);
    let o2 = outs.push(Err(e));
    assert(c2.drop_last() =~= calls);
    assert(o2.drop_last() =~= outs);
    assert(c2[0] == calls[0]);
    assert(o2[0] == outs[0]);
}

/// A plan that chooses no more requests ends the session with the replies.
pub proof fn lemma_session_done(
    device: u8,
    feature_id: u16,
    next: Plan,
    fi: u8,
    calls: Seq<Call>,
    outs: Seq<Reply>,
    ev: Seq<TransportEvent>,
)
    requires
        session_prefix(feature_id, next, fi, calls, outs),
        next(session_replies(outs)) is None,
        calls_events(device, calls, outs, ev),
    ensures
        session(device, feature_id, next, ev, Ok(session_replies(outs))),
{
    if calls.len() == 1 {
        assert(session_replies(outs) =~= Seq::<Seq<u8>>::empty());
    } else {
        let n = calls.len() - 1;
        let cp = calls.drop_last();
        let op = outs.drop_last();
        assert forall|j: int| 1 <= j < op.len() implies #[trigger] op[j] is Ok by {
            assert(op[j] == outs[j]);
        }
        assert forall|j: int| 1 <= j < cp.len() implies (#[trigger] cp[j]).0 == fi && next(oks(op.subrange(1, j))) == Some((cp[j].1, cp[j].2)) by {
            assert(op.subrange(1, j) =~= outs.subrange(1, j));
            assert(cp[j] == calls[j]);
        }
        assert(session_prefix(feature_id, next, fi, cp, op));
        assert(outs.subrange(1, n) =~= op.skip(1));
        assert(calls[n] == calls.last());
        assert(outs[n] is Ok);
    }
}

} // verus!
