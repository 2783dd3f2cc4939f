//! The hidden-webview bridge's rules: the harness document it loads, the scripts it hands the
//! webview, and when a wait for an answer stops. The app owns the webview and the clock; it asks
//! here what to run and what an answer means.
//!
//! A synchronous expression comes back in one round trip. Async work stores its result into a slot
//! of the harness (`window.__slots`), which is then polled until it is filled.
use vstd::prelude::*;

use crate::decimal::{decimal, decimal_string};
use crate::text::concat_str;

verus! {

/// The URI scheme the harness document is served over.
pub const SCHEME: &'static str = "limusicharness";

/// The harness document. Everything the bridge needs lives in its inline script, so it exists
/// exactly when the document does: the error hooks, the slots async results are parked in, the
/// argument the player script expects, and the marker the readiness probe looks for.
pub const HARNESS_HTML: &'static str = "<!doctype html><html><head><meta charset=utf-8></head><body>\
<script>\
window.__jserr=null;window.__slots={};window._yt_player=window._yt_player||{};\
window.addEventListener('error',function(e){window.__jserr=String((e&&e.message)||e);});\
window.onunhandledrejection=function(e){window.__jserr=String((e.reason&&e.reason.message)||e.reason);};\
window.__harness=1;\
</script></body></html>";

/// True once the harness document is the one running and answering: `about:blank`, where a fresh
/// webview sits, defines no `__harness`.
pub const READY_PROBE: &'static str = "window.__harness===1";

/// The uncaught JS error the harness recorded, or null.
pub const JS_ERROR_EXPR: &'static str = "window.__jserr||null";

/// How long a new webview has to become ready.
pub const READY_TIMEOUT_MS: u64 = 12000;

/// How long one readiness probe waits for its answer, and the pause between probes.
pub const READY_EVAL_MS: u64 = 800;
pub const READY_RETRY_MS: u64 = 150;

/// How long the page-load event gets before the probes start anyway.
pub const PAGE_LOAD_WAIT_MS: u64 = 1000;

/// One eval of a poll, and the pause between evals.
pub const POLL_EVAL_MS: u64 = 3000;
pub const POLL_STEP_MS: u64 = 100;

/// How often, and how far apart, a destroyed webview's label is checked before a create gives up
/// waiting for it.
pub const FREE_TRIES: u32 = 40;
pub const FREE_STEP_MS: u64 = 50;

pub open spec fn harness_url_text() -> Seq<char> {
    SCHEME@ + "://localhost/"@
}

/// The harness document's address.
pub fn harness_url() -> (r: String)
    ensures
        r@ == harness_url_text(),
{
    concat_str(SCHEME, "://localhost/")
}

pub open spec fn slot_text(id: u64) -> Seq<char> {
    "window.__slots['"@ + decimal(id as nat) + "']"@
}

/// Run `await (expr)` and park the resolved value, or the error's message, in slot `id`.
pub open spec fn call_text(id: u64, expr: Seq<char>) -> Seq<char> {
    "(async()=>{try{"@ + slot_text(id) + "={ok:1,v:await ("@ + expr + ")};}catch(e){"@ + slot_text(id)
        + "={ok:0,e:String((e&&e.message)||e)};}})();"@
}

fn slot(id: u64) -> (r: String)
    ensures
        r@ == slot_text(id),
{
    let a = concat_str("window.__slots['", decimal_string(id).as_str());
    concat_str(a.as_str(), "']")
}

/// The script that starts async call `id` on `expr`.
pub fn call_script(id: u64, expr: &str) -> (r: String)
    ensures
        r@ == call_text(id, expr@),
{
    let s = slot(id);
    let a = concat_str("(async()=>{try{", s.as_str());
    let b = concat_str(a.as_str(), "={ok:1,v:await (");
    let c = concat_str(b.as_str(), expr);
    let d = concat_str(c.as_str(), ")};}catch(e){");
    let e = concat_str(d.as_str(), s.as_str());
    let r = concat_str(e.as_str(), "={ok:0,e:String((e&&e.message)||e)};}})();");
    assert(r@ =~= call_text(id, expr@));
    r
}

/// The expression polled for call `id`: its slot, or null while it is empty.
pub fn slot_expr(id: u64) -> (r: String)
    ensures
        r@ == slot_text(id) + "||null"@,
{
    concat_str(slot(id).as_str(), "||null")
}

/// The script that frees call `id`'s slot, whatever its outcome: a slot left behind stays in the
/// harness's heap for the life of the process.
pub fn free_script(id: u64) -> (r: String)
    ensures
        r@ == "delete "@ + slot_text(id) + ";"@,
{
    let a = concat_str("delete ", slot(id).as_str());
    concat_str(a.as_str(), ";")
}

/// `expr` in parentheses, so a poll evaluates it as one expression.
pub fn grouped(expr: &str) -> (r: String)
    ensures
        r@ == "("@ + expr@ + ")"@,
{
    let a = concat_str("(", expr);
    concat_str(a.as_str(), ")")
}

/// Whether the webview's raw answer is no value: nothing at all, or JSON's `null` (what a null or
/// undefined expression gives).
pub fn answer_is_null(raw: &str) -> (r: bool)
    ensures
        r == (raw@.len() == 0 || raw@ == "null"@),
{
    let n = raw.unicode_len();
    if n == 0 {
        return true;
    }
    proof {
        reveal_strlit("null");
    }
    if n != 4 {
        assert(raw@ != "null"@);
        return false;
    }
    let r = raw.get_char(0) == 'n' && raw.get_char(1) == 'u' && raw.get_char(2) == 'l'
        && raw.get_char(3) == 'l';
    proof {
        if r {
            assert(raw@ =~= "null"@);
        } else {
            assert(raw@ != "null"@) by {
                if raw@ == "null"@ {
                    assert(raw@[0] == 'n' && raw@[1] == 'u' && raw@[2] == 'l' && raw@[3] == 'l');
                }
            }
        }
    }
    r
}

/// How one eval of a poll came out.
#[derive(Debug, Clone, Copy, PartialEq, Eq, Structural)]
pub enum Answer {
    /// A value that is not null.
    Value,
    /// Null: still pending.
    Null,
    /// The webview no longer exists.
    Gone,
    /// The eval timed out or failed.
    Failed,
}

/// What a poll does after an eval.
#[derive(Debug, Clone, Copy, PartialEq, Eq, Structural)]
pub enum AfterAnswer {
    /// Return the value.
    Done,
    /// Stop: the window died.
    Gone,
    /// Look for a recorded JS error, then wait or give up.
    CheckErrors,
}

/// A value ends the poll and a vanished window stops it; null, and an eval that timed out or
/// failed, only mean "not ready yet".
pub open spec fn poll_answer(a: Answer) -> AfterAnswer {
    match a {
        Answer::Value => AfterAnswer::Done,
        Answer::Gone => AfterAnswer::Gone,
        _ => AfterAnswer::CheckErrors,
    }
}

/// See [`poll_answer`].
pub fn after_answer(a: Answer) -> (r: AfterAnswer)
    ensures
        r == poll_answer(a),
{
    match a {
        Answer::Value => AfterAnswer::Done,
        Answer::Gone => AfterAnswer::Gone,
        _ => AfterAnswer::CheckErrors,
    }
}

/// What a poll does once it has looked for a JS error.
#[derive(Debug, Clone, Copy, PartialEq, Eq, Structural)]
pub enum AfterCheck {
    /// The harness recorded an uncaught error: the webview is bad.
    BadWebview,
    /// The deadline has passed.
    TimedOut,
    /// Wait a step and eval again.
    Again,
}

/// A recorded JS error fails the poll at once; otherwise only the poll's own deadline ends it.
pub open spec fn poll_check(js_error: bool, now_ms: u64, deadline_ms: u64) -> AfterCheck {
    if js_error {
        AfterCheck::BadWebview
    } else if now_ms >= deadline_ms {
        AfterCheck::TimedOut
    } else {
        AfterCheck::Again
    }
}

/// See [`poll_check`].
pub fn after_check(js_error: bool, now_ms: u64, deadline_ms: u64) -> (r: AfterCheck)
    ensures
        r == poll_check(js_error, now_ms, deadline_ms),
{
    if js_error {
        AfterCheck::BadWebview
    } else if now_ms >= deadline_ms {
        AfterCheck::TimedOut
    } else {
        AfterCheck::Again
    }
}

/// Where a new webview stands after a readiness probe.
#[derive(Debug, Clone, Copy, PartialEq, Eq, Structural)]
pub enum Readiness {
    Ready,
    /// Never became ready: destroy it and fail.
    GiveUp,
    /// Probe again after a pause.
    Retry,
}

/// Ready as soon as the probe answers `true`; past the deadline the window exists but is unusable.
pub fn readiness(answered_true: bool, now_ms: u64, deadline_ms: u64) -> (r: Readiness)
    ensures
        r == (if answered_true {
            Readiness::Ready
        } else if now_ms >= deadline_ms {
            Readiness::GiveUp
        } else {
            Readiness::Retry
        }),
{
    if answered_true {
        Readiness::Ready
    } else if now_ms >= deadline_ms {
        Readiness::GiveUp
    } else {
        Readiness::Retry
    }
}

/// Whether a filled slot holds a value rather than an error: its `ok` is 1.
pub fn slot_ok(ok: Option<i64>) -> (r: bool)
    ensures
        r == (ok == Some(1i64)),
{
    match ok {
        Some(v) => v == 1,
        None => false,
    }
}

/// A poll gives up only at its deadline: before it, an eval that left the poll waiting (null, or a
/// transient failure) leads to another eval unless the harness recorded a JS error.
pub proof fn law_a_poll_waits_for_its_deadline(a: Answer, js_error: bool, now_ms: u64, deadline_ms: u64)
    requires
        now_ms < deadline_ms,
        poll_answer(a) == AfterAnswer::CheckErrors,
    ensures
        poll_check(js_error, now_ms, deadline_ms) != AfterCheck::TimedOut,
        !js_error ==> poll_check(js_error, now_ms, deadline_ms) == AfterCheck::Again,
        a == Answer::Null || a == Answer::Failed,
{
}

} // verus!
