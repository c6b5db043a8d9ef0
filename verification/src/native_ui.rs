//! Data describing the desktop alert dialogs: icon, text, button sets and
//! the user's answer. Showing a dialog is platform work done elsewhere;
//! these types and the caption table are the portable part.

use vstd::prelude::*;

verus! {

/// Everything a platform backend needs to show one alert box.
#[derive(Debug, Clone)]
pub struct AlertConfig {
    pub icon: AlertIcon,
    pub title: String,
    pub description: Option<String>,
    pub buttons: AlertButtons,
}

/// The fixed button sets an alert can offer.
#[derive(Debug, Copy, Clone, PartialEq, Eq, Structural)]
pub enum AlertButtons {
    OkOnly,
    OkCancel,
    RetryCancel,
    YesNo,
    YesNoCancel,
}

/// The icon shown beside the alert text.
#[derive(Debug, Copy, Clone, PartialEq, Eq, Structural)]
pub enum AlertIcon {
    Info,
    Warning,
    Error,
}

/// Which button the user pressed, in the order the set lists them.
#[derive(Debug, Copy, Clone, PartialEq, Eq, Structural)]
pub enum AlertResponse {
    Button1Pressed,
    Button2Pressed,
    Button3Pressed,
}

/// The captions of each button set, primary button first.
pub open spec fn spec_button_strings(b: AlertButtons) -> Seq<Seq<char>> {
    match b {
        AlertButtons::OkOnly => seq!["OK"@],
        AlertButtons::OkCancel => seq!["OK"@, "Cancel"@],
        AlertButtons::RetryCancel => seq!["Retry"@, "Cancel"@],
        AlertButtons::YesNo => seq!["Yes"@, "No"@],
        AlertButtons::YesNoCancel => seq!["Yes"@, "No"@, "Cancel"@],
    }
}

impl AlertButtons {
    /// The captions of this button set, primary button first.
    pub fn to_strings(self) -> (r: Vec<&'static str>)
        ensures
            r@.len() == spec_button_strings(self).len(),
            forall|i: int| 0 <= i < r@.len() ==> #[trigger] r@[i]@ == spec_button_strings(self)[i],
    {
        let mut r: Vec<&'static str> = Vec::new();
        match self {
            AlertButtons::OkOnly => {
                r.push("OK");
            },
            AlertButtons::OkCancel => {
                r.push("OK");
                r.push("Cancel");
            },
            AlertButtons::RetryCancel => {
                r.push("Retry");
                r.push("Cancel");
            },
            AlertButtons::YesNo => {
                r.push("Yes");
                r.push("No");
            },
            AlertButtons::YesNoCancel => {
                r.push("Yes");
                r.push("No");
                r.push("Cancel");
            },
        }
        r
    }
}

} // verus!
