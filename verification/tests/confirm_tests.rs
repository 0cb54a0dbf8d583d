use vaultseed::confirm::{
    action_string, remove_position_request, dispatch_confirm_action, unknown_action_message,
    ConfirmAction, ConfirmDispatch,
};

const R: u128 = 0x0123_4567_89ab_cdef_0123_4567_89ab_cdef;
const S: u128 = 42;
const R_TEXT: &str = "01234567-89ab-cdef-0123-456789abcdef";
const S_TEXT: &str = "00000000-0000-0000-0000-00000000002a";

fn same(a: &ConfirmAction, b: &ConfirmAction) -> bool {
    match (a, b) {
        (ConfirmAction::RemoveDevice(x), ConfirmAction::RemoveDevice(y)) => x == y,
        (ConfirmAction::RemoveRestriction(x), ConfirmAction::RemoveRestriction(y)) => x == y,
        (ConfirmAction::ClearSequence(x), ConfirmAction::ClearSequence(y)) => x == y,
        (ConfirmAction::RemovePosition(x, i), ConfirmAction::RemovePosition(y, j)) => x == y && i == j,
        (ConfirmAction::RemoveCharList(x, a), ConfirmAction::RemoveCharList(y, b)) => x == y && a == b,
        (ConfirmAction::RemoveDomain(x), ConfirmAction::RemoveDomain(y)) => x == y,
        (ConfirmAction::DeleteFrozen(x, a), ConfirmAction::DeleteFrozen(y, b)) => x == y && a == b,
        (ConfirmAction::RemoveStatic(x), ConfirmAction::RemoveStatic(y)) => x == y,
        (ConfirmAction::RemoveFolder, ConfirmAction::RemoveFolder) => true,
        (ConfirmAction::RegenerateSalt, ConfirmAction::RegenerateSalt) => true,
        (ConfirmAction::RotateKeys, ConfirmAction::RotateKeys) => true,
        (ConfirmAction::DeleteLocalState, ConfirmAction::DeleteLocalState) => true,
        (ConfirmAction::DeleteSessionFile, ConfirmAction::DeleteSessionFile) => true,
        (ConfirmAction::UseLastSessionPath(p), ConfirmAction::UseLastSessionPath(q)) => p == q,
        _ => false,
    }
}

fn all_actions() -> Vec<ConfirmAction> {
    vec![
        ConfirmAction::RemoveDevice(R),
        ConfirmAction::RemoveRestriction(S),
        ConfirmAction::ClearSequence(R),
        ConfirmAction::RemovePosition(R, 7),
        ConfirmAction::RemoveCharList(R, S),
        ConfirmAction::RemoveDomain(S),
        ConfirmAction::DeleteFrozen(S, R),
        ConfirmAction::RemoveStatic(R),
        ConfirmAction::RemoveFolder,
        ConfirmAction::RegenerateSalt,
        ConfirmAction::RotateKeys,
        ConfirmAction::DeleteLocalState,
        ConfirmAction::DeleteSessionFile,
        ConfirmAction::UseLastSessionPath("C:\\vault\\s.vaultseed".to_string()),
    ]
}

#[test]
fn action_texts() {
    assert_eq!(action_string(&ConfirmAction::RemoveDevice(R)), format!("remove-device:{}", R_TEXT));
    assert_eq!(action_string(&ConfirmAction::RemovePosition(R, 3)), format!("remove-position:{}:3", R_TEXT));
    assert_eq!(action_string(&ConfirmAction::RemoveCharList(R, S)), format!("remove-charlist:{}:{}", R_TEXT, S_TEXT));
    assert_eq!(action_string(&ConfirmAction::DeleteFrozen(S, R)), format!("delete-frozen:{}:{}", S_TEXT, R_TEXT));
    assert_eq!(action_string(&ConfirmAction::RemoveFolder), "remove-folder");
    assert_eq!(action_string(&ConfirmAction::RotateKeys), "rotate-keys");
    assert_eq!(action_string(&ConfirmAction::UseLastSessionPath("/a:b".to_string())), "use-last-session-path:/a:b");
}

#[test]
fn every_action_reads_back_as_itself() {
    for a in all_actions() {
        let text = action_string(&a);
        match dispatch_confirm_action(&text) {
            ConfirmDispatch::Run(b) => assert!(same(&a, &b), "text {:?}", text),
            _ => panic!("text {:?} did not read back", text),
        }
    }
}

#[test]
fn arguments_that_do_not_read_are_ignored() {
    assert!(matches!(dispatch_confirm_action("remove-device"), ConfirmDispatch::Ignored));
    assert!(matches!(dispatch_confirm_action("remove-device:xyz"), ConfirmDispatch::Ignored));
    assert!(matches!(dispatch_confirm_action(&format!("remove-charlist:{}", R_TEXT)), ConfirmDispatch::Ignored));
    assert!(matches!(dispatch_confirm_action(&format!("remove-position:{}:x", R_TEXT)), ConfirmDispatch::Ignored));
    assert!(matches!(dispatch_confirm_action("use-last-session-path:   "), ConfirmDispatch::Ignored));
    assert!(matches!(dispatch_confirm_action("use-last-session-path"), ConfirmDispatch::Ignored));
}

#[test]
fn unknown_tags_are_reported() {
    assert!(matches!(dispatch_confirm_action("launch-rockets:1"), ConfirmDispatch::Unknown));
    assert!(matches!(dispatch_confirm_action(""), ConfirmDispatch::Unknown));
    assert_eq!(unknown_action_message("x:y"), "Acção de confirmação desconhecida: x:y");
}

#[test]
fn tag_without_arguments_runs_even_with_trailing_text() {
    assert!(matches!(dispatch_confirm_action("rotate-keys:extra"), ConfirmDispatch::Run(ConfirmAction::RotateKeys)));
    assert!(matches!(dispatch_confirm_action("remove-folder"), ConfirmDispatch::Run(ConfirmAction::RemoveFolder)));
}

#[test]
fn negative_position_request_is_ignored() {
    let text = remove_position_request(R, -2);
    assert_eq!(text, format!("remove-position:{}:-2", R_TEXT));
    assert!(matches!(dispatch_confirm_action(&text), ConfirmDispatch::Ignored));
    let ok = remove_position_request(R, 4);
    assert!(matches!(dispatch_confirm_action(&ok), ConfirmDispatch::Run(ConfirmAction::RemovePosition(R, 4))));
}

#[test]
fn windows_path_keeps_its_colons() {
    match dispatch_confirm_action("use-last-session-path:C:\\x\\y.vaultseed") {
        ConfirmDispatch::Run(ConfirmAction::UseLastSessionPath(p)) => assert_eq!(p, "C:\\x\\y.vaultseed"),
        _ => panic!("expected the path"),
    }
}
