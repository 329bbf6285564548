//! The bridge: the call contract over one worker channel.
//!
//! The bridge serializes access to the worker so that one full exchange
//! — write one request line, read one response line — happens at a
//! time. The decisions (whether to write, what to write, how to read a
//! reply or a transport failure) are pure functions here; the process
//! pipes that carry the bytes live outside the library and hand these
//! functions plain values. A scripted worker, a verified in-memory
//! stand-in for the pipe pair, lets the whole exchange be verified and
//! exercised end to end.

use vstd::prelude::*;
use vstd::string::StringExecFns;

use crate::codec::{encode_request, no_newline, spec_encode_request};
use crate::envelope::{spec_parse_envelope, decode_response, Envelope};
use crate::request::Request;

verus! {

/// What one blocking read of the worker's output produced: one full
/// line, the end of the stream, or an input fault.
#[derive(Debug)]
pub enum ReadEvent {
    Line(String),
    Closed,
    Failed(String),
}

/// The bridge's error taxonomy. Worker-reported failures (a decoded
/// envelope with success set false) are not here: they are a normal
/// outcome, shaped by the command surface.
#[derive(Debug)]
pub enum BridgeError {
    /// The worker executable could not be started.
    SpawnFailure(String),
    /// A call was attempted with no running worker.
    NotStarted,
    /// Writing the request line failed: the pipe closed or the worker
    /// exited.
    TransportWrite(String),
    /// Reading the response line failed.
    TransportRead(String),
    /// The worker closed its output stream before a full line arrived.
    TransportClosed,
    /// The response line did not parse as the envelope shape; carries
    /// the offending line and the parse diagnostic.
    MalformedFrame(String, String),
}

/// The single string a failure is converted to at the boundary: the
/// fixed text of its kind, with the carried details spliced in; the
/// malformed-frame text surfaces the parse diagnostic and the offending
/// raw line.
pub open spec fn spec_message(e: BridgeError) -> Seq<char> {
    match e {
        BridgeError::SpawnFailure(m) => "failed to start worker: "@ + m@,
        BridgeError::NotStarted => "Backend not started"@,
        BridgeError::TransportWrite(m) => "failed to write request: "@ + m@,
        BridgeError::TransportRead(m) => "failed to read response: "@ + m@,
        BridgeError::TransportClosed => "worker closed its output before replying"@,
        BridgeError::MalformedFrame(line, detail) => "Parse error: "@ + detail@
            + " - Response: "@ + line@,
    }
}

impl BridgeError {
    /// The single string every failure is converted to at the boundary,
    /// exactly as the message specification says.
    pub fn message(self) -> (r: String)
        ensures
            r@ == spec_message(self),
    {
        match self {
            BridgeError::SpawnFailure(e) => String::from_str("failed to start worker: ").concat(
                e.as_str(),
            ),
            BridgeError::NotStarted => String::from_str("Backend not started"),
            BridgeError::TransportWrite(e) => String::from_str("failed to write request: ")
                .concat(e.as_str()),
            BridgeError::TransportRead(e) => String::from_str("failed to read response: ").concat(
                e.as_str(),
            ),
            BridgeError::TransportClosed => String::from_str(
                "worker closed its output before replying",
            ),
            BridgeError::MalformedFrame(line, detail) => String::from_str("Parse error: ").concat(
                detail.as_str(),
            ).concat(" - Response: ").concat(line.as_str()),
        }
    }
}

/// The bridge's view of the worker lifecycle: created with no process,
/// running after a successful spawn.
pub struct Bridge {
    pub running: bool,
}

impl Bridge {
    /// A fresh bridge: no worker process exists yet.
    pub fn new() -> (r: Bridge)
        ensures
            !r.running,
    {
        Bridge { running: false }
    }

    /// Records that a spawn succeeded and the worker is now running.
    pub fn mark_started(&mut self)
        ensures
            final(self).running,
    {
        self.running = true;
    }

    /// Records that the worker is gone (shutdown or crash observed).
    pub fn mark_stopped(&mut self)
        ensures
            !final(self).running,
    {
        self.running = false;
    }

    /// The write decision of one call: with no running worker the call
    /// fails with `NotStarted` and nothing is ever written; with a
    /// running worker the line to write is exactly the canonical
    /// encoding of the request, free of embedded newlines.
    pub fn prepare_call(&self, req: &Request) -> (r: Result<String, BridgeError>)
        ensures
            !self.running ==> (r matches Err(e) && e is NotStarted),
            self.running ==> (r matches Ok(line) && line@ == spec_encode_request(req@)
                && no_newline(line@)),
    {
        if !self.running {
            Err(BridgeError::NotStarted)
        } else {
            Ok(encode_request(req))
        }
    }

    /// The read decision of one call: a closed stream is
    /// `TransportClosed`, an input fault is `TransportRead`, and a full
    /// line is decoded — the envelope exactly as the line parses, or
    /// `MalformedFrame` carrying the raw line when it does not.
    pub fn complete_call(&self, event: ReadEvent) -> (r: Result<Envelope, BridgeError>)
        ensures
            event is Closed ==> (r matches Err(e) && e is TransportClosed),
            event matches ReadEvent::Failed(msg) ==> (r matches Err(e) && (e matches
                BridgeError::TransportRead(m) && m == msg)),
            event matches ReadEvent::Line(line) ==> match spec_parse_envelope(line@) {
                Some(em) => r matches Ok(env) && env@ == em,
                None => r matches Err(e) && (e matches BridgeError::MalformedFrame(l, _) && l
                    == line),
            },
    {
        match event {
            ReadEvent::Closed => Err(BridgeError::TransportClosed),
            ReadEvent::Failed(msg) => Err(BridgeError::TransportRead(msg)),
            ReadEvent::Line(line) => match decode_response(line.as_str()) {
                Ok(env) => Ok(env),
                Err(detail) => Err(BridgeError::MalformedFrame(line, detail)),
            },
        }
    }
}

/// What one read event determines of a call's result: a closed stream
/// is `TransportClosed`, an input fault is `TransportRead` with the
/// fault's text, and a full line yields the envelope it parses to, or
/// `MalformedFrame` carrying that line.
pub open spec fn spec_event_outcome(event: ReadEvent, r: Result<Envelope, BridgeError>) -> bool {
    match event {
        ReadEvent::Closed => r matches Err(e) && e is TransportClosed,
        ReadEvent::Failed(m) => r matches Err(e) && (e matches BridgeError::TransportRead(mm)
            && mm == m),
        ReadEvent::Line(l) => match spec_parse_envelope(l@) {
            Some(em) => r matches Ok(env) && env@ == em,
            None => r matches Err(e) && (e matches BridgeError::MalformedFrame(ll, _) && ll == l),
        },
    }
}

/// An in-memory worker: a scripted stand-in for the process pipe pair.
/// Lines written to it are logged in order; reads consume its scripted
/// events in order, and a read past the script's end reports a closed
/// stream, as a pipe whose process exited would.
pub struct ScriptedWorker {
    pub input_log: Vec<String>,
    pub script: Vec<ReadEvent>,
    pub cursor: usize,
}

impl ScriptedWorker {
    pub open spec fn wf(&self) -> bool {
        self.cursor <= self.script@.len()
    }

    /// A scripted worker that will answer with the given events.
    pub fn new(script: Vec<ReadEvent>) -> (r: ScriptedWorker)
        ensures
            r.wf(),
            r.input_log@ == Seq::<String>::empty(),
            r.script == script,
            r.cursor == 0,
    {
        ScriptedWorker { input_log: Vec::new(), script, cursor: 0 }
    }

    /// Writes one full line: it is appended to the input log whole, so
    /// the log never holds a partial line.
    pub fn write_line(&mut self, line: String)
        ensures
            final(self).input_log@ == old(self).input_log@.push(line),
            final(self).script == old(self).script,
            final(self).cursor == old(self).cursor,
            old(self).wf() ==> final(self).wf(),
    {
        self.input_log.push(line);
    }

    /// Reads the next scripted event; past the script's end the stream
    /// is closed.
    pub fn read_event(&mut self) -> (r: ReadEvent)
        requires
            old(self).wf(),
        ensures
            final(self).wf(),
            final(self).input_log == old(self).input_log,
            final(self).script == old(self).script,
            old(self).cursor < old(self).script@.len() ==> (final(self).cursor == old(
                self,
            ).cursor + 1 && r == old(self).script@[old(self).cursor as int]),
            old(self).cursor >= old(self).script@.len() ==> (final(self).cursor == old(
                self,
            ).cursor && r is Closed),
    {
        if self.cursor < self.script.len() {
            let e = match &self.script[self.cursor] {
                ReadEvent::Line(l) => ReadEvent::Line(l.clone()),
                ReadEvent::Closed => ReadEvent::Closed,
                ReadEvent::Failed(m) => ReadEvent::Failed(m.clone()),
            };
            self.cursor = self.cursor + 1;
            proof {
                assert(e == self.script@[self.cursor - 1 as int]) by {
                    match self.script@[self.cursor - 1 as int] {
                        ReadEvent::Line(l) => {},
                        ReadEvent::Closed => {},
                        ReadEvent::Failed(m) => {},
                    }
                }
            }
            e
        } else {
            ReadEvent::Closed
        }
    }
}

/// One full exchange against a worker, under exclusive access: exactly
/// one whole request line is written — none at all when no worker runs
/// — and exactly one read happens after it, before the call returns.
/// This is the order every caller observes on the shared channel.
pub fn call(bridge: &Bridge, worker: &mut ScriptedWorker, req: &Request) -> (r: Result<
    Envelope,
    BridgeError,
>)
    requires
        old(worker).wf(),
    ensures
        final(worker).wf(),
        // With no running worker the call fails with NotStarted and the
        // worker saw nothing: no write, no read.
        !bridge.running ==> (r matches Err(e) && e is NotStarted && *final(worker) == *old(worker)),
        // With a running worker, exactly one whole line - the canonical
        // encoding of this request - is appended to the input log, the
        // log before it is untouched, and exactly one scripted event is
        // consumed before the call returns.
        bridge.running ==> ({
            let log0 = old(worker).input_log@;
            let log1 = final(worker).input_log@;
            &&& log1.len() == log0.len() + 1
            &&& log1.subrange(0, log0.len() as int) == log0
            &&& log1.last()@ == spec_encode_request(req@)
            &&& no_newline(log1.last()@)
            &&& final(worker).script == old(worker).script
            &&& (old(worker).cursor < old(worker).script@.len() ==> final(worker).cursor == old(
                worker,
            ).cursor + 1)
            &&& (old(worker).cursor >= old(worker).script@.len() ==> (final(worker).cursor
                == old(worker).cursor && (r matches Err(e) && e is TransportClosed)))
            &&& (old(worker).cursor < old(worker).script@.len() ==> spec_event_outcome(
                old(worker).script@[old(worker).cursor as int],
                r,
            ))
        }),
{
    let line = match bridge.prepare_call(req) {
        Ok(l) => l,
        Err(e) => {
            return Err(e);
        },
    };
    worker.write_line(line);
    let event = worker.read_event();
    bridge.complete_call(event)
}


/// Runs one call per request, in order, against a running worker: the
/// serialization every set of concurrent callers observes. The worker's
/// input log grows by exactly one whole line per request — the
/// canonical encoding of that request — in call order, with the log
/// before the calls untouched; one scripted reply is consumed per call
/// while any remain, and each call's result is determined by its own
/// reply (a call past the script's end fails as a closed stream would).
pub fn call_each(bridge: &Bridge, worker: &mut ScriptedWorker, reqs: &Vec<Request>) -> (rs: Vec<
    Result<Envelope, BridgeError>,
>)
    requires
        old(worker).wf(),
        bridge.running,
    ensures
        final(worker).wf(),
        final(worker).script == old(worker).script,
        rs@.len() == reqs@.len(),
        final(worker).input_log@.len() == old(worker).input_log@.len() + reqs@.len(),
        final(worker).input_log@.subrange(0, old(worker).input_log@.len() as int) == old(
            worker,
        ).input_log@,
        forall|i: int|
            0 <= i < reqs@.len() ==> #[trigger] final(worker).input_log@[old(
                worker,
            ).input_log@.len() + i]@ == spec_encode_request(reqs@[i]@),
        final(worker).cursor as int == (if old(worker).cursor + reqs@.len() <= old(
            worker,
        ).script@.len() {
            old(worker).cursor + reqs@.len()
        } else {
            old(worker).script@.len() as int
        }),
        forall|i: int|
            0 <= i < reqs@.len() && old(worker).cursor + i < old(worker).script@.len()
                ==> spec_event_outcome(
                old(worker).script@[old(worker).cursor + i],
                #[trigger] rs@[i],
            ),
        forall|i: int|
            0 <= i < reqs@.len() && old(worker).cursor + i >= old(worker).script@.len() ==> (
            #[trigger] rs@[i] matches Err(e) && e is TransportClosed),
{
    let ghost len0 = old(worker).input_log@.len();
    let ghost log0 = old(worker).input_log@;
    let ghost cur0 = old(worker).cursor;
    let ghost script0 = old(worker).script;
    let mut rs: Vec<Result<Envelope, BridgeError>> = Vec::new();
    let n = reqs.len();
    let mut i: usize = 0;
    while i < n
        invariant
            i <= n,
            n == reqs@.len(),
            bridge.running,
            worker.wf(),
            worker.script == script0,
            cur0 <= script0@.len(),
            rs@.len() == i,
            worker.input_log@.len() == len0 + i,
            worker.input_log@.subrange(0, len0 as int) == log0,
            forall|k: int|
                0 <= k < i ==> #[trigger] worker.input_log@[len0 + k]@ == spec_encode_request(
                    reqs@[k]@,
                ),
            worker.cursor as int == (if cur0 + i <= script0@.len() {
                cur0 + i
            } else {
                script0@.len() as int
            }),
            forall|k: int|
                0 <= k < i && cur0 + k < script0@.len() ==> spec_event_outcome(
                    script0@[cur0 + k],
                    #[trigger] rs@[k],
                ),
            forall|k: int|
                0 <= k < i && cur0 + k >= script0@.len() ==> (#[trigger] rs@[k] matches Err(e)
                    && e is TransportClosed),
        decreases n - i,
    {
        let ghost prev = worker.input_log@;
        let ghost cur_before = worker.cursor;
        let r = call(bridge, worker, &reqs[i]);
        proof {
            if cur0 + i < script0@.len() {
                assert(cur_before as int == cur0 + i);
                assert(spec_event_outcome(script0@[cur0 + i], r));
            } else {
                assert(cur_before as int == script0@.len() as int);
                assert(r matches Err(e) && e is TransportClosed);
            }
        }
        rs.push(r);
        proof {
            let cur = worker.input_log@;
            assert(cur.subrange(0, prev.len() as int) == prev);
            assert(cur.subrange(0, len0 as int) =~= log0) by {
                assert forall|k: int| 0 <= k < len0 implies cur.subrange(0, len0 as int)[k]
                    == log0[k] by {
                    assert(cur.subrange(0, prev.len() as int)[k] == cur[k]);
                    assert(prev.subrange(0, len0 as int)[k] == prev[k]);
                }
            }
            assert forall|k: int| 0 <= k < i + 1 implies #[trigger] cur[len0 + k]@
                == spec_encode_request(reqs@[k]@) by {
                if k < i {
                    assert(cur.subrange(0, prev.len() as int)[len0 + k] == cur[len0 + k]);
                } else {
                    assert(cur[len0 + k] == cur.last());
                }
            }
        }
        i = i + 1;
    }
    rs
}

/// The fixed launch plan for the worker: the interpreter to start, the
/// script file it runs, and the flag that selects the line protocol.
/// The shell starts this command from the project root — two levels
/// above its own working directory — with the worker's error stream
/// left on the shell's own, outside the protocol.
pub fn worker_command() -> (r: (String, String, String))
    ensures
        r.0@ == "python3"@,
        r.1@ == "backend_server.py"@,
        r.2@ == "--json-mode"@,
{
    (
        String::from_str("python3"),
        String::from_str("backend_server.py"),
        String::from_str("--json-mode"),
    )
}

} // verus!
