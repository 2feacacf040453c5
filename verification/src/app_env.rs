//! The environment every GUI application in a session inherits.
//!
//! Shared by the terminals (where a user types the app's name) and the private
//! D-Bus session (where an activated service is launched on their behalf), so
//! an app reaches the same display either way.

use vstd::prelude::*;

verus! {

/// Environment pairs as texts.
pub open spec fn env_view(env: Seq<(&'static str, String)>) -> Seq<(Seq<char>, Seq<char>)> {
    env.map_values(|p: (&'static str, String)| (p.0@, p.1@))
}

/// The display of the X11 bridge as a text.
pub open spec fn shown(x_display: Option<&str>) -> Option<Seq<char>> {
    match x_display {
        Some(d) => Some(d@),
        None => None,
    }
}

/// The toolkit pins: absolute without an X display, ordered preferences that
/// end in X11 with one.
pub open spec fn toolkit_pairs(x_display: Option<Seq<char>>) -> Seq<(Seq<char>, Seq<char>)> {
    let bridged = x_display is Some;
    let comma = if bridged {
        "wayland,x11"@
    } else {
        "wayland"@
    };
    let semicolon = if bridged {
        "wayland;xcb"@
    } else {
        "wayland"@
    };
    let base = seq![
        ("XDG_SESSION_TYPE"@, "wayland"@),
        ("NIXOS_OZONE_WL"@, "1"@),
        ("ELECTRON_OZONE_PLATFORM_HINT"@, "wayland"@),
        ("MOZ_ENABLE_WAYLAND"@, "1"@),
        ("GDK_BACKEND"@, comma),
        ("QT_QPA_PLATFORM"@, semicolon),
        ("SDL_VIDEODRIVER"@, comma),
    ];
    match x_display {
        Some(display) => base + seq![
            ("DISPLAY"@, display),
            ("_JAVA_AWT_WM_NONREPARENTING"@, "1"@),
        ],
        None => base,
    }
}

fn pick(only: &str, ordered: &str, wayland_only: bool) -> (r: String)
    ensures
        r@ == if wayland_only {
            only@
        } else {
            ordered@
        },
{
    if wayland_only {
        only.to_owned()
    } else {
        ordered.to_owned()
    }
}

/// Toolkit steering for apps on the session's compositor.
///
/// Every toolkit here defaults to X11 when it is left to choose. `x_display`
/// is the display of the X11 bridge when one is running: without it the pins
/// are absolute, and with it a Wayland-capable app still gets Wayland while an
/// X11-only one gets a display rather than nothing.
pub fn toolkit_env(x_display: Option<&str>) -> (env: Vec<(&'static str, String)>)
    ensures
        env_view(env@) == toolkit_pairs(shown(x_display)),
{
    let wayland_only: bool = x_display.is_none();
    let mut env: Vec<(&'static str, String)> = Vec::new();
    env.push(("XDG_SESSION_TYPE", "wayland".to_owned()));
    env.push(("NIXOS_OZONE_WL", "1".to_owned()));
    env.push(("ELECTRON_OZONE_PLATFORM_HINT", "wayland".to_owned()));
    env.push(("MOZ_ENABLE_WAYLAND", "1".to_owned()));
    // GTK and SDL take a comma-separated list, Qt a semicolon-separated one,
    // each tried in order.
    env.push(("GDK_BACKEND", pick("wayland", "wayland,x11", wayland_only)));
    env.push(("QT_QPA_PLATFORM", pick("wayland", "wayland;xcb", wayland_only)));
    env.push(("SDL_VIDEODRIVER", pick("wayland", "wayland,x11", wayland_only)));
    if let Some(display) = x_display {
        env.push(("DISPLAY", display.to_owned()));
        // Java's AWT waits for a reparenting window manager, and nothing
        // reparents under the bridge.
        env.push(("_JAVA_AWT_WM_NONREPARENTING", "1".to_owned()));
        proof {
            assert(env_view(env@) =~= toolkit_pairs(Some(display@)));
        }
    } else {
        proof {
            assert(env_view(env@) =~= toolkit_pairs(None));
        }
    }
    env
}

} // verus!
