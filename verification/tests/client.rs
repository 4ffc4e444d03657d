use ledger::config::Config;
use ledger::report::{
    normalize_report_path, report_step, ProtocolError, ReportAction, ReportEvent, ReportState,
};
use ledger::session::{toggle_focus, Focus};
use ledger::transaction::Transaction;

#[test]
fn foreign_path_splits_into_host_segments() {
    let segs = normalize_report_path("C:\\reports\\out.txt");
    assert_eq!(segs, vec!["C:", "reports", "out.txt"]);
    assert_eq!(segs.last().unwrap(), "out.txt");
}

#[test]
fn path_without_foreign_separator_is_one_segment() {
    assert_eq!(normalize_report_path("out.txt"), vec!["out.txt"]);
}

#[test]
fn opening_the_report_view_issues_a_request() {
    let (state, action) = report_step(ReportState::Idle, ReportEvent::Open);
    assert!(matches!(state, ReportState::AwaitingReply));
    assert_eq!(action, ReportAction::SendRequest);
}

#[test]
fn a_reply_with_a_path_succeeds_with_normalized_segments() {
    let (state, action) = report_step(
        ReportState::AwaitingReply,
        ReportEvent::Reply(Some("C:\\reports\\out.txt".to_string())),
    );
    assert_eq!(action, ReportAction::Nothing);
    match state {
        ReportState::Succeeded(segs) => assert_eq!(segs, vec!["C:", "reports", "out.txt"]),
        other => panic!("unexpected state {:?}", other),
    }
}

#[test]
fn a_reply_without_a_path_settles_without_error() {
    let (state, _) = report_step(ReportState::AwaitingReply, ReportEvent::Reply(None));
    assert!(matches!(state, ReportState::NoPath));
}

#[test]
fn transport_failures_settle_as_failed() {
    let (state, _) = report_step(
        ReportState::AwaitingReply,
        ReportEvent::Transport(ProtocolError::Recv),
    );
    assert!(matches!(state, ReportState::Failed(ProtocolError::Recv)));
}

#[test]
fn cancellation_and_timeout_reach_the_cancelled_state() {
    let (state, _) = report_step(ReportState::AwaitingReply, ReportEvent::Cancel);
    assert!(matches!(state, ReportState::Cancelled));
    let (state, _) = report_step(ReportState::AwaitingReply, ReportEvent::Timeout);
    assert!(matches!(state, ReportState::Cancelled));
}

#[test]
fn a_settled_request_reopens_with_a_fresh_round_trip() {
    let (state, action) = report_step(ReportState::NoPath, ReportEvent::Open);
    assert!(matches!(state, ReportState::AwaitingReply));
    assert_eq!(action, ReportAction::SendRequest);
}

#[test]
fn toggling_the_current_focus_clears_it() {
    assert_eq!(toggle_focus(Focus::Charts, Focus::Charts), Focus::Nothing);
    assert_eq!(toggle_focus(Focus::Nothing, Focus::Charts), Focus::Charts);
    assert_eq!(
        toggle_focus(Focus::Charts, Focus::ExpenseReport),
        Focus::ExpenseReport
    );
}

#[test]
fn config_builders_set_their_fields() {
    let c = Config::default().database("db.json").tick_rate(200);
    assert_eq!(c.database, "db.json");
    assert_eq!(c.tick_rate_ms, 200);
}

#[test]
fn a_fresh_transaction_is_blank_and_dated_today() {
    let t = Transaction::new();
    assert_eq!(t.id, "");
    assert_eq!(t.credit, "");
    assert_eq!(t.debit, "");
    assert_eq!(t.amount.cents, 0);
    assert_eq!(t.memo, "");
    assert!((1..=12).contains(&t.date.month));
}

#[test]
fn transaction_setters_replace_single_fields() {
    let mut t = Transaction::new();
    t.set_credit("1");
    t.set_debit("2");
    t.set_memo("note");
    t.set_amount(ledger::amount::Amount { cents: 100233 });
    assert_eq!(t.credit, "1");
    assert_eq!(t.debit, "2");
    assert_eq!(t.memo, "note");
    assert_eq!(t.amount.cents, 100233);
}

#[test]
fn account_setters_replace_single_fields() {
    let mut a = ledger::account::Account::new();
    a.set_name("cash");
    a.set_parent("0");
    assert_eq!(a.name, "cash");
    assert_eq!(a.parent, "0");
}
