use crosshair::{choose_backend, startup_message, BackendChoice};

#[test]
fn backend_selection_matrix() {
    assert_eq!(choose_backend(true, true, None), Ok(BackendChoice::Wayland));
    assert_eq!(choose_backend(false, true, None), Ok(BackendChoice::X11));
    assert_eq!(
        choose_backend(true, true, Some("layer-shell missing")),
        Ok(BackendChoice::X11)
    );
    assert!(choose_backend(false, false, None).is_err());
}

#[test]
fn backend_failure_messages() {
    assert_eq!(
        choose_backend(false, false, None),
        Err(String::from("neither X11/XWayland nor Wayland is available"))
    );
    assert_eq!(
        choose_backend(true, false, Some("no compositor")),
        Err(String::from(
            "Wayland failed and X11/XWayland is unavailable: no compositor"
        ))
    );
    assert_eq!(choose_backend(true, false, None), Ok(BackendChoice::Wayland));
}

#[test]
fn startup_messages() {
    assert_eq!(
        startup_message(BackendChoice::Wayland, None),
        "Wayland layer-shell overlay active"
    );
    assert_eq!(startup_message(BackendChoice::X11, None), "X11 overlay active");
    assert_eq!(
        startup_message(BackendChoice::X11, Some("boom")),
        "Using X11 fallback; Wayland unavailable: boom"
    );
}
