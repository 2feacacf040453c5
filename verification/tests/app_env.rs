use blit_server::app_env::toolkit_env;

fn lookup(x_display: Option<&str>, key: &str) -> Option<String> {
    toolkit_env(x_display)
        .into_iter()
        .find(|(name, _)| *name == key)
        .map(|(_, value)| value)
}

/// Without a bridge there is no X to fall back to, so the pins have to
/// stay absolute: a toolkit offered "wayland,x11" and no display can
/// still try X11 and fail there instead of drawing.
#[test]
fn a_session_without_a_bridge_names_no_display_and_pins_wayland() {
    assert_eq!(lookup(None, "DISPLAY"), None);
    assert_eq!(lookup(None, "GDK_BACKEND").as_deref(), Some("wayland"));
    assert_eq!(lookup(None, "QT_QPA_PLATFORM").as_deref(), Some("wayland"));
    assert_eq!(lookup(None, "SDL_VIDEODRIVER").as_deref(), Some("wayland"));
    assert_eq!(lookup(None, "_JAVA_AWT_WM_NONREPARENTING"), None);
}

/// With one, Wayland still comes first for everything that can speak it —
/// the bridge is the fallback, not the destination.
#[test]
fn a_bridged_session_prefers_wayland_and_offers_x11_behind_it() {
    assert_eq!(lookup(Some(":20"), "DISPLAY").as_deref(), Some(":20"));
    assert_eq!(
        lookup(Some(":20"), "GDK_BACKEND").as_deref(),
        Some("wayland,x11")
    );
    assert_eq!(
        lookup(Some(":20"), "QT_QPA_PLATFORM").as_deref(),
        Some("wayland;xcb")
    );
    assert_eq!(
        lookup(Some(":20"), "SDL_VIDEODRIVER").as_deref(),
        Some("wayland,x11")
    );
    assert_eq!(
        lookup(Some(":20"), "_JAVA_AWT_WM_NONREPARENTING").as_deref(),
        Some("1")
    );
}
