use limusic::webview::{
    after_answer, after_check, answer_is_null, call_script, free_script, grouped, harness_url,
    readiness, slot_expr, slot_ok, AfterAnswer, AfterCheck, Answer, Readiness, HARNESS_HTML, SCHEME,
};

#[test]
fn the_harness_is_served_over_its_own_scheme() {
    assert_eq!(harness_url(), "limusicharness://localhost/");
    assert_eq!(SCHEME, "limusicharness");
    assert!(HARNESS_HTML.contains("window.__harness=1;"));
    assert!(HARNESS_HTML.contains("window.__slots={};"));
}

#[test]
fn an_async_call_parks_its_outcome_in_its_slot() {
    assert_eq!(
        call_script(7, "bg.snapshot()"),
        "(async()=>{try{window.__slots['7']={ok:1,v:await (bg.snapshot())};}catch(e){window.__slots['7']={ok:0,e:String((e&&e.message)||e)};}})();"
    );
    assert_eq!(slot_expr(12), "window.__slots['12']||null");
    assert_eq!(free_script(0), "delete window.__slots['0'];");
    assert_eq!(grouped("a||b"), "(a||b)");
    assert_eq!(slot_expr(u64::MAX), "window.__slots['18446744073709551615']||null");
}

#[test]
fn null_and_nothing_are_no_value() {
    assert!(answer_is_null(""));
    assert!(answer_is_null("null"));
    assert!(!answer_is_null("nul"));
    assert!(!answer_is_null("\"null\""));
    assert!(!answer_is_null("0"));
    assert!(!answer_is_null("nulL"));
}

#[test]
fn a_poll_waits_out_transient_failures_until_its_deadline() {
    assert_eq!(after_answer(Answer::Value), AfterAnswer::Done);
    assert_eq!(after_answer(Answer::Gone), AfterAnswer::Gone);
    assert_eq!(after_answer(Answer::Null), AfterAnswer::CheckErrors);
    assert_eq!(after_answer(Answer::Failed), AfterAnswer::CheckErrors);
    assert_eq!(after_check(false, 100, 200), AfterCheck::Again);
    assert_eq!(after_check(true, 100, 200), AfterCheck::BadWebview);
    assert_eq!(after_check(false, 200, 200), AfterCheck::TimedOut);
}

#[test]
fn a_new_webview_is_ready_on_the_probe_or_given_up_at_the_deadline() {
    assert_eq!(readiness(true, 50_000, 12_000), Readiness::Ready);
    assert_eq!(readiness(false, 11_999, 12_000), Readiness::Retry);
    assert_eq!(readiness(false, 12_000, 12_000), Readiness::GiveUp);
    assert!(slot_ok(Some(1)));
    assert!(!slot_ok(Some(0)));
    assert!(!slot_ok(None));
}
