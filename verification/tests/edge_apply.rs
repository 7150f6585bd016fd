use nexo::edge_apply::{
    apply_step, begin_apply, read_domain_tokens, remembered_credentials, snapshot_token, starts_with_applied, ApplyAction,
    Before, Which,
};

fn run(before: Before, outcomes: &[bool]) -> Vec<ApplyAction> {
    let mut action = begin_apply();
    let mut done = vec![action];
    for ok in outcomes {
        action = apply_step(before, action, *ok);
        done.push(action);
    }
    done
}

#[test]
fn a_configuration_is_loaded_before_it_is_stored() {
    let before = Before { config: true, applied: true };
    assert_eq!(
        run(before, &[true, true, true]),
        vec![
            ApplyAction::Load(Which::New),
            ApplyAction::WriteConfig(Which::New),
            ApplyAction::WriteApplied(Which::New),
            ApplyAction::Finish(true),
        ]
    );
    assert_eq!(
        run(before, &[false]),
        vec![ApplyAction::Load(Which::New), ApplyAction::Finish(false)]
    );
}

#[test]
fn a_failure_to_store_restores_what_was_there() {
    let before = Before { config: true, applied: false };
    assert_eq!(
        run(before, &[true, true, false, false, true, true])[3..],
        [
            ApplyAction::Load(Which::Old),
            ApplyAction::WriteConfig(Which::Old),
            ApplyAction::RemoveApplied,
            ApplyAction::Finish(false),
        ]
    );
    let nothing = Before { config: false, applied: true };
    assert_eq!(
        run(nothing, &[true, false, true, true])[2..],
        [
            ApplyAction::RemoveConfig,
            ApplyAction::WriteApplied(Which::Old),
            ApplyAction::Finish(false),
        ]
    );
}

#[test]
fn the_edge_starts_with_what_was_in_force() {
    assert!(starts_with_applied(Some("{\"apps\":{}}")));
    assert!(!starts_with_applied(Some("{broken")));
    assert!(!starts_with_applied(None));
}

#[test]
fn tokens_are_read_in_the_order_of_the_domains() {
    let files = vec![
        ("b".to_owned(), " token-b\n".to_owned()),
        ("c".to_owned(), " \n".to_owned()),
        ("a".to_owned(), "token-a".to_owned()),
    ];
    assert_eq!(
        read_domain_tokens(&files),
        vec![("a".to_owned(), "token-a".to_owned()), ("b".to_owned(), "token-b".to_owned())]
    );
}

#[test]
fn a_token_is_kept_once() {
    let files = vec![
        ("cloudflare.token".to_owned(), Some("t".to_owned())),
        ("credential-1.token".to_owned(), None),
        ("credential-2.token".to_owned(), Some("t".to_owned())),
    ];
    assert_eq!(snapshot_token(&files, "t").as_deref(), Some("credential-2.token"));
    assert_eq!(snapshot_token(&files, "u"), None);
}

#[test]
fn credentials_are_remembered_with_success_alone() {
    let kept = |action: ApplyAction| {
        remembered_credentials(Some("old".to_owned()), Some("new".to_owned()), action)
    };
    assert_eq!(kept(ApplyAction::Finish(true)).as_deref(), Some("new"));
    assert_eq!(kept(ApplyAction::Finish(false)).as_deref(), Some("old"));
    assert_eq!(kept(ApplyAction::Load(Which::New)).as_deref(), Some("old"));
    assert_eq!(remembered_credentials(Some("old".to_owned()), None, ApplyAction::Finish(true)), None);
}
