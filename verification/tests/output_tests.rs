use mpd_easy::Error;
use mpd_easy::outputs::Enabled;
use mpd_easy::outputs::Output;
use mpd_easy::outputs::Outputs;
use mpd_easy::outputs::apply_output_ops;
use mpd_easy::outputs::output_for;
use mpd_easy::outputs::plan_enable_disable;
use mpd_easy::outputs::plan_toggle;

fn three_outputs() -> Vec<Output> {
    vec![
        Output { id: 0, name: "a".to_string(), enabled: Enabled::Enabled },
        Output { id: 1, name: "b".to_string(), enabled: Enabled::Enabled },
        Output { id: 2, name: "c".to_string(), enabled: Enabled::Disabled },
    ]
}

fn enabled_flags(outputs: &[Output]) -> Vec<bool> {
    outputs.iter().map(|o| matches!(o.enabled, Enabled::Enabled)).collect()
}

#[test]
fn test_enable_only_disables_the_rest() {
    let outputs = three_outputs();
    let args = vec!["only".to_string(), "2".to_string()];
    let ops = plan_enable_disable(true, &args, &outputs).unwrap();
    let after = apply_output_ops(&outputs, &ops);
    assert_eq!(enabled_flags(&after), vec![false, false, true]);
}

#[test]
fn test_disable_only_enables_the_rest() {
    let outputs = three_outputs();
    let args = vec!["only".to_string(), "b".to_string()];
    let ops = plan_enable_disable(false, &args, &outputs).unwrap();
    let after = apply_output_ops(&outputs, &ops);
    assert_eq!(enabled_flags(&after), vec![true, false, true]);
}

#[test]
fn test_enable_without_only_leaves_others_alone() {
    let outputs = three_outputs();
    let args = vec!["c".to_string()];
    let ops = plan_enable_disable(true, &args, &outputs).unwrap();
    let after = apply_output_ops(&outputs, &ops);
    assert_eq!(enabled_flags(&after), vec![true, true, true]);
}

#[test]
fn test_enable_unknown_selector() {
    let outputs = three_outputs();
    let args = vec!["zz".to_string()];
    assert!(matches!(plan_enable_disable(true, &args, &outputs), Err(Error::UnknownOutput)));
}

#[test]
fn test_output_for_numeric_and_name() {
    let outputs = three_outputs();
    // A numeric selector is taken as an id without an existence check.
    assert_eq!(output_for(&outputs, "7").unwrap(), 7);
    assert_eq!(output_for(&outputs, "b").unwrap(), 1);
    assert!(matches!(output_for(&outputs, "zz"), Err(Error::UnknownOutput)));
}

#[test]
fn test_toggle_needs_arguments() {
    let outputs = three_outputs();
    let none: Vec<String> = Vec::new();
    assert!(matches!(plan_toggle(&none, &outputs), Err(Error::NoOutputsGiven)));
    let args = vec!["b".to_string(), "0".to_string()];
    assert_eq!(plan_toggle(&args, &outputs).unwrap(), vec![1, 0]);
}

#[test]
fn test_outputs_render() {
    let listing = Outputs { outputs: three_outputs() };
    assert_eq!(listing.render(), "0=a (enabled)1=b (enabled)2=c (disabled)");
}
