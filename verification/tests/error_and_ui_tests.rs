use ccloader_installer::error::{err_msg, AppResult, ResultExt};
use ccloader_installer::native_ui::{AlertButtons, AlertConfig, AlertIcon, AlertResponse};

#[test]
fn err_msg_keeps_the_message() {
    assert_eq!(err_msg("network error"), "network error".to_owned());
}

#[test]
fn context_passes_success_through() {
    let r: AppResult<i32> = Ok(7);
    assert_eq!(r.context("fetching"), Ok(7));
}

#[test]
fn context_prefixes_the_error() {
    let r: AppResult<i32> = Err("connection refused".to_owned());
    assert_eq!(r.context("network error"), Err("network error: connection refused".to_owned()));
}

#[test]
fn with_context_computes_the_prefix() {
    let r: AppResult<i32> = Err("boom".to_owned());
    let wrapped = r.with_context(|e| format!("step failed ({} bytes)", e.len()));
    assert_eq!(wrapped, Err("step failed (4 bytes): boom".to_owned()));
    let ok: AppResult<i32> = Ok(1);
    assert_eq!(ok.with_context(|_| "unused".to_owned()), Ok(1));
}

#[test]
fn button_captions() {
    assert_eq!(AlertButtons::OkOnly.to_strings(), vec!["OK"]);
    assert_eq!(AlertButtons::OkCancel.to_strings(), vec!["OK", "Cancel"]);
    assert_eq!(AlertButtons::RetryCancel.to_strings(), vec!["Retry", "Cancel"]);
    assert_eq!(AlertButtons::YesNo.to_strings(), vec!["Yes", "No"]);
    assert_eq!(AlertButtons::YesNoCancel.to_strings(), vec!["Yes", "No", "Cancel"]);
}

#[test]
fn alert_data_round_trip() {
    let config = AlertConfig {
        icon: AlertIcon::Warning,
        title: "Heads up".to_owned(),
        description: Some("details".to_owned()),
        buttons: AlertButtons::YesNo,
    };
    let copy = config.clone();
    assert_eq!(copy.icon, AlertIcon::Warning);
    assert_eq!(copy.title, "Heads up");
    assert_eq!(copy.description.as_deref(), Some("details"));
    assert_eq!(copy.buttons, AlertButtons::YesNo);
    assert_ne!(AlertResponse::Button1Pressed, AlertResponse::Button2Pressed);
}
