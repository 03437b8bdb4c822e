use princess::contract::ErrorCode;
use princess::ops::{cancel_reply, describe_live, join_strings, stop_reply, CancelOutcome, OpRegistry};

#[test]
fn register_cancel_and_finish() {
    let mut reg = OpRegistry::new();
    let op = reg.register("tools:detect");
    assert_eq!(op.op_id, "op-0001");
    assert_eq!(op.kind, "tools:detect");
    assert!(!op.is_cancelled(&reg));
    assert_eq!(reg.live(), vec!["op-0001".to_string()]);

    assert_eq!(reg.cancel("op-0001"), CancelOutcome::Cancelled);
    assert!(op.is_cancelled(&reg));
    assert_eq!(reg.cancel("op-0001"), CancelOutcome::AlreadyCancelled);

    reg.finish("op-0001");
    assert_eq!(reg.cancel("op-0001"), CancelOutcome::NotFound);
    assert!(reg.live().is_empty());
}

#[test]
fn unknown_ids_report_not_found() {
    let mut reg = OpRegistry::new();
    assert_eq!(reg.cancel("op-dead"), CancelOutcome::NotFound);
}

#[test]
fn ids_count_up_in_hex_and_live_lists_them_sorted() {
    let mut reg = OpRegistry::new();
    let mut last = None;
    for _ in 0..11 {
        last = Some(reg.register("build:start"));
    }
    assert_eq!(last.unwrap().op_id, "op-000b");
    let named = reg.register_with_id("lsp-clangd", "lsp:start");
    assert_eq!(named.op_id, "lsp-clangd");
    let live = reg.live();
    assert_eq!(live.len(), 12);
    let mut sorted = live.clone();
    sorted.sort();
    assert_eq!(live, sorted);
}

#[test]
fn a_handle_cancel_flips_its_own_flag_once() {
    let mut reg = OpRegistry::new();
    let op = reg.register("run:start");
    assert!(op.cancel(&mut reg));
    assert!(!op.cancel(&mut reg));
    assert_eq!(reg.cancel(&op.op_id), CancelOutcome::AlreadyCancelled);
    let again = reg.register_with_id(&op.op_id, "run:start");
    assert!(!again.is_cancelled(&reg), "a replacement starts uncancelled");
    assert!(op.is_cancelled(&reg), "the old handle keeps its own flag");
}

#[test]
fn cancel_and_stop_replies_name_the_live_operations() {
    let live = vec!["op-0001".to_string(), "op-0002".to_string()];
    assert!(cancel_reply(CancelOutcome::Cancelled, "op-0001", &live).is_ok());
    let again = cancel_reply(CancelOutcome::AlreadyCancelled, "op-0001", &live).unwrap_err();
    assert_eq!(again.code, ErrorCode::Cancelled);
    assert_eq!(again.message, "op-0001 was already cancelled");
    assert_eq!(again.detail, "live operations: op-0001, op-0002");
    let missing = cancel_reply(CancelOutcome::NotFound, "op-dead", &Vec::new()).unwrap_err();
    assert_eq!(missing.code, ErrorCode::NotFound);
    assert_eq!(missing.message, "no live operation named op-dead");
    assert_eq!(missing.detail, "live operations: none");

    assert!(stop_reply(CancelOutcome::Cancelled, "op-0003", &live).is_ok());
    let stopped = stop_reply(CancelOutcome::AlreadyCancelled, "op-0003", &live).unwrap_err();
    assert_eq!(stopped.message, "op-0003 was already stopped");
    assert_eq!(stopped.detail, "");
    let no_run = stop_reply(CancelOutcome::NotFound, "op-0009", &Vec::new()).unwrap_err();
    assert_eq!(no_run.message, "no live run operation named op-0009");
    assert_eq!(no_run.detail, "live operations: ");
    assert_eq!(describe_live(&live), "op-0001, op-0002");
    assert_eq!(join_strings(&live, "\n"), "op-0001\nop-0002");
}

#[test]
fn successive_registrations_are_numbered_in_order_and_all_live() {
    let mut reg = OpRegistry::new();
    let kinds = ["a", "b", "c", "d", "e", "f", "g", "h", "i", "j", "k", "l", "m", "n", "o", "p", "q"];
    let mut ids = Vec::new();
    for (i, kind) in kinds.iter().enumerate() {
        let h = reg.register(kind);
        assert_eq!(h.op_id, format!("op-{:04x}", i + 1));
        assert_eq!(h.kind, *kind);
        assert!(!h.is_cancelled(&reg));
        ids.push(h.op_id.clone());
    }
    assert_eq!(reg.registrations(), kinds.len() as u64);
    assert_eq!(reg.flag_count(), kinds.len());
    assert_eq!(reg.live(), ids);
}
