use vstd::prelude::*;

use crate::text::{append, string_from};

verus! {

/// The display server that the overlay is drawn through on Linux.
#[derive(Clone, Copy, Debug, PartialEq, Eq, Structural)]
pub enum BackendChoice {
    Wayland,
    X11,
}

/// The message that the backend choice fails with.
pub open spec fn no_backend_text(wayland_error: Option<Seq<char>>) -> Seq<char> {
    match wayland_error {
        Some(error) => "Wayland failed and X11/XWayland is unavailable: "@ + error,
        None => "neither X11/XWayland nor Wayland is available"@,
    }
}

/// Picks the overlay backend: Wayland where a Wayland display is present and its overlay
/// started, else X11 where an X11 display (or XWayland) is present.
pub fn choose_backend(
    wayland_present: bool,
    x11_present: bool,
    wayland_error: Option<&str>,
) -> (choice: Result<BackendChoice, String>)
    ensures
        wayland_present && wayland_error is None ==> choice == Ok::<BackendChoice, String>(
            BackendChoice::Wayland,
        ),
        !(wayland_present && wayland_error is None) && x11_present ==> choice == Ok::<
            BackendChoice,
            String,
        >(BackendChoice::X11),
        !(wayland_present && wayland_error is None) && !x11_present ==> (choice matches Err(message)
            && message@ == no_backend_text(
            match wayland_error {
                Some(e) => Some(e@),
                None => None,
            },
        )),
{
    if wayland_present && wayland_error.is_none() {
        return Ok(BackendChoice::Wayland);
    }
    if x11_present {
        return Ok(BackendChoice::X11);
    }
    let mut out: Vec<char> = Vec::new();
    match wayland_error {
        Some(error) => {
            append(&mut out, "Wayland failed and X11/XWayland is unavailable: ");
            append(&mut out, error);
        },
        None => append(&mut out, "neither X11/XWayland nor Wayland is available"),
    }
    Err(string_from(&out))
}

/// The message shown when the overlay starts.
pub open spec fn startup_text(
    choice: BackendChoice,
    fallback_error: Option<Seq<char>>,
) -> Seq<char> {
    match choice {
        BackendChoice::Wayland => "Wayland layer-shell overlay active"@,
        BackendChoice::X11 => match fallback_error {
            Some(error) => "Using X11 fallback; Wayland unavailable: "@ + error,
            None => "X11 overlay active"@,
        },
    }
}

/// The message shown when the overlay starts, given the backend in use and, for X11, why
/// Wayland was not used.
pub fn startup_message(choice: BackendChoice, fallback_error: Option<&str>) -> (message: String)
    ensures
        message@ == startup_text(
            choice,
            match fallback_error {
                Some(e) => Some(e@),
                None => None,
            },
        ),
{
    let mut out: Vec<char> = Vec::new();
    match choice {
        BackendChoice::Wayland => append(&mut out, "Wayland layer-shell overlay active"),
        BackendChoice::X11 => match fallback_error {
            Some(error) => {
                append(&mut out, "Using X11 fallback; Wayland unavailable: ");
                append(&mut out, error);
            },
            None => append(&mut out, "X11 overlay active"),
        },
    }
    string_from(&out)
}

} // verus!
