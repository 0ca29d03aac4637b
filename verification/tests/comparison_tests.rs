use mullande::comparison::{CompareAction, CompareEvent, CompareStage, Comparison};

fn models(names: &[&str]) -> Vec<String> {
    names.iter().map(|s| s.to_string()).collect()
}

#[test]
fn no_models_no_comparison() {
    assert!(Comparison::start(vec![], "T").is_none());
}

#[test]
fn each_model_runs_on_its_branch_then_the_judge_decides() {
    let (mut c, a) = Comparison::start(models(&["llama3", "qwen:7b", "org/m"]), "20240102_030405").unwrap();
    assert!(matches!(a, CompareAction::MakeBranch { ref branch } if branch == "model-llama3-20240102_030405"));
    assert!(matches!(c.step(CompareEvent::Succeeded), CompareAction::EnterBranch { ref branch } if branch == "model-llama3-20240102_030405"));
    assert!(matches!(c.step(CompareEvent::Succeeded), CompareAction::RunModel { model: 0 }));
    assert!(matches!(c.step(CompareEvent::Succeeded), CompareAction::LeaveBranch));
    // the second model's branch cannot be made: it is skipped, without leaving any branch
    assert!(matches!(c.step(CompareEvent::Succeeded), CompareAction::MakeBranch { ref branch } if branch == "model-qwen-7b-20240102_030405"));
    assert!(matches!(c.step(CompareEvent::Failed), CompareAction::MakeBranch { ref branch } if branch == "model-org-m-20240102_030405"));
    assert!(matches!(c.step(CompareEvent::Succeeded), CompareAction::EnterBranch { .. }));
    assert!(matches!(c.step(CompareEvent::Succeeded), CompareAction::RunModel { model: 2 }));
    assert!(matches!(c.step(CompareEvent::Succeeded), CompareAction::LeaveBranch));
    // leaving a branch that fails only warns
    assert!(matches!(c.step(CompareEvent::Failed), CompareAction::Judge));
    assert_eq!(c.succeeded, vec![0, 2]);
    assert!(matches!(c.step(CompareEvent::Verdict(Some(2))), CompareAction::Judge));
    assert!(matches!(c.step(CompareEvent::Verdict(Some(2))), CompareAction::Decided { winner: Some(1), kept: 1 }));
    assert!(c.stage == CompareStage::Over);
    assert_eq!(c.verdicts, vec![Some(2), Some(2)]);
}

#[test]
fn failed_runs_are_left_and_not_judged() {
    let (mut c, _) = Comparison::start(models(&["a", "b"]), "T").unwrap();
    c.step(CompareEvent::Succeeded);
    c.step(CompareEvent::Succeeded);
    assert!(matches!(c.step(CompareEvent::Failed), CompareAction::LeaveBranch));
    assert!(matches!(c.step(CompareEvent::Succeeded), CompareAction::MakeBranch { .. }));
    c.step(CompareEvent::Succeeded);
    c.step(CompareEvent::Succeeded);
    assert!(matches!(c.step(CompareEvent::Succeeded), CompareAction::LeaveBranch));
    assert!(matches!(c.step(CompareEvent::Succeeded), CompareAction::Single));
    assert_eq!(c.succeeded, vec![1]);
}

#[test]
fn all_runs_failing_ends_the_comparison() {
    let (mut c, _) = Comparison::start(models(&["a"]), "T").unwrap();
    c.step(CompareEvent::Succeeded);
    assert!(matches!(c.step(CompareEvent::Failed), CompareAction::AllFailed));
}

#[test]
fn inconclusive_verdicts_keep_the_first_output() {
    let (mut c, _) = Comparison::start(models(&["a", "b"]), "T").unwrap();
    for _ in 0..2 {
        c.step(CompareEvent::Succeeded);
        c.step(CompareEvent::Succeeded);
        c.step(CompareEvent::Succeeded);
        c.step(CompareEvent::Succeeded);
    }
    assert!(matches!(c.stage, CompareStage::Judging));
    c.step(CompareEvent::Verdict(None));
    assert!(matches!(c.step(CompareEvent::Verdict(None)), CompareAction::Decided { winner: None, kept: 0 }));
}
