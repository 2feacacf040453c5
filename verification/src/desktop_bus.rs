//! The private session bus of applications on the server's own display.

use vstd::prelude::*;

use crate::app_env::{env_view, shown, toolkit_env, toolkit_pairs};
use crate::text::{concat, parse_unsigned, same_text, text_view, trim, trimmed, unsigned_up_to};

verus! {

pub const DEFAULT_MINIMUM_TIMEOUT_MS: u64 = 1000;

pub const DEFAULT_MAXIMUM_TIMEOUT_MS: u64 = 86_400_000;

pub const DEFAULT_TIMEOUT_MS: u64 = 10_000;

/// How long notifications stay, in milliseconds.
#[derive(Clone, Copy, Debug, PartialEq, Eq, Structural)]
pub struct Timeouts {
    pub default_ms: u64,
    pub minimum_ms: u64,
    pub maximum_ms: u64,
}

/// A time as it was set, or its default where it is unset or no number.
pub open spec fn set_time(setting: Option<Seq<char>>, default: u64) -> u64 {
    match setting {
        Some(s) => match unsigned_up_to(s, u64::MAX as nat) {
            Some(n) => n as u64,
            None => default,
        },
        None => default,
    }
}

fn parse_duration(setting: &Option<String>, default: u64) -> (n: u64)
    ensures
        n == set_time(text_view(*setting), default),
{
    match setting {
        Some(s) => match parse_unsigned(s.as_str(), u64::MAX) {
            Some(n) => n,
            None => default,
        },
        None => default,
    }
}

/// The times as they were set: the longest is never under the shortest, and the
/// default lies between them.
pub fn timeouts(
    minimum: &Option<String>,
    maximum: &Option<String>,
    default: &Option<String>,
) -> (t: Timeouts)
    ensures
        ({
            let low = set_time(text_view(*minimum), DEFAULT_MINIMUM_TIMEOUT_MS);
            let high = set_time(text_view(*maximum), DEFAULT_MAXIMUM_TIMEOUT_MS);
            let usual = set_time(text_view(*default), DEFAULT_TIMEOUT_MS);
            &&& t.minimum_ms == low
            &&& t.maximum_ms == (if high < low {
                low
            } else {
                high
            })
            &&& t.default_ms == (if usual < t.minimum_ms {
                t.minimum_ms
            } else if usual > t.maximum_ms {
                t.maximum_ms
            } else {
                usual
            })
        }),
        t.minimum_ms <= t.default_ms <= t.maximum_ms,
{
    let minimum_ms: u64 = parse_duration(minimum, DEFAULT_MINIMUM_TIMEOUT_MS);
    let high: u64 = parse_duration(maximum, DEFAULT_MAXIMUM_TIMEOUT_MS);
    let maximum_ms: u64 = if high < minimum_ms {
        minimum_ms
    } else {
        high
    };
    let usual: u64 = parse_duration(default, DEFAULT_TIMEOUT_MS);
    let default_ms: u64 = if usual < minimum_ms {
        minimum_ms
    } else if usual > maximum_ms {
        maximum_ms
    } else {
        usual
    };
    Timeouts { default_ms, minimum_ms, maximum_ms }
}

/// Whether desktop services are switched off.
pub fn services_disabled(setting: &Option<String>) -> (r: bool)
    ensures
        r == (text_view(*setting) == Some("0"@)),
{
    match setting {
        Some(s) => same_text(s.as_str(), "0"),
        None => false,
    }
}

/// The address that the bus printed, without the white space around it; a bus
/// that printed none is of no use.
pub fn bus_address(line: &str) -> (r: Result<String, &'static str>)
    ensures
        match r {
            Ok(address) => address@ == trimmed(line@) && address@.len() > 0,
            Err(detail) => trimmed(line@).len() == 0 && detail@
                == "private D-Bus session exited without printing an address"@,
        },
{
    let address = trim(line);
    proof {
        reveal_strlit("");
        assert(""@ =~= Seq::<char>::empty());
        if address@.len() == 0 {
            assert(address@ =~= ""@);
        }
    }
    if same_text(address.as_str(), "") {
        Err("private D-Bus session exited without printing an address")
    } else {
        Ok(address)
    }
}

/// Why a socket without a name of its own cannot be used.
pub fn no_filename(socket: &str) -> (t: String)
    ensures
        t@ == "Wayland socket has no filename: "@ + socket@,
{
    concat("Wayland socket has no filename: ", socket)
}

/// One setting in the environment of a process.
pub struct EnvSetting {
    pub name: &'static str,
    pub value: String,
}

/// What the bus and everything that it starts find in their environment, so
/// that their windows appear on the server's display: where it is, and the
/// toolkit settings that the terminals have too.
pub open spec fn bus_environment_spec(
    runtime_dir: Seq<char>,
    display: Seq<char>,
    x_display: Option<Seq<char>>,
) -> Seq<(Seq<char>, Seq<char>)> {
    seq![("XDG_RUNTIME_DIR"@, runtime_dir), ("WAYLAND_DISPLAY"@, display)] + toolkit_pairs(
        x_display,
    )
}

pub open spec fn setting_views(v: Seq<EnvSetting>) -> Seq<(Seq<char>, Seq<char>)> {
    Seq::new(v.len(), |i: int| (v[i].name@, v[i].value@))
}

pub fn env_setting(name: &'static str, value: &str) -> (s: EnvSetting)
    ensures
        s.name@ == name@,
        s.value@ == value@,
{
    EnvSetting { name, value: value.to_owned() }
}

/// The environment of the private bus. `x_display` is the display of the X11
/// bridge, where one is listening.
pub fn bus_environment(runtime_dir: &str, display: &str, x_display: Option<&str>) -> (out: Vec<
    EnvSetting,
>)
    ensures
        setting_views(out@) == bus_environment_spec(runtime_dir@, display@, shown(x_display)),
{
    let mut out: Vec<EnvSetting> = Vec::new();
    out.push(env_setting("XDG_RUNTIME_DIR", runtime_dir));
    out.push(env_setting("WAYLAND_DISPLAY", display));
    let toolkit = toolkit_env(x_display);
    let mut i: usize = 0;
    while i < toolkit.len()
        invariant
            i <= toolkit@.len(),
            setting_views(out@) == seq![
                ("XDG_RUNTIME_DIR"@, runtime_dir@),
                ("WAYLAND_DISPLAY"@, display@),
            ] + env_view(toolkit@).take(i as int),
        decreases toolkit@.len() - i,
    {
        let ghost before = out@;
        out.push(env_setting(toolkit[i].0, toolkit[i].1.as_str()));
        proof {
            assert(env_view(toolkit@).take(i + 1) =~= env_view(toolkit@).take(i as int).push(
                env_view(toolkit@)[i as int],
            ));
            assert(setting_views(out@) =~= setting_views(before).push(
                env_view(toolkit@)[i as int],
            ));
        }
        i = i + 1;
    }
    proof {
        assert(env_view(toolkit@).take(toolkit@.len() as int) =~= env_view(toolkit@));
    }
    out
}

pub open spec fn word_views(v: Seq<&'static str>) -> Seq<Seq<char>> {
    Seq::new(v.len(), |i: int| v[i]@)
}

/// What the bus must not find in its environment: the host's buses, and the
/// host's display where no bridge gives it another.
pub open spec fn removed_spec(bridged: bool) -> Seq<Seq<char>> {
    if bridged {
        seq!["DBUS_SESSION_BUS_ADDRESS"@, "DBUS_SYSTEM_BUS_ADDRESS"@]
    } else {
        seq!["DISPLAY"@, "DBUS_SESSION_BUS_ADDRESS"@, "DBUS_SYSTEM_BUS_ADDRESS"@]
    }
}

/// What is taken out of the bus's environment.
pub fn removed_environment(x_display: Option<&str>) -> (out: Vec<&'static str>)
    ensures
        word_views(out@) == removed_spec(x_display is Some),
{
    let mut out: Vec<&'static str> = Vec::new();
    if x_display.is_none() {
        out.push("DISPLAY");
    }
    out.push("DBUS_SESSION_BUS_ADDRESS");
    out.push("DBUS_SYSTEM_BUS_ADDRESS");
    proof {
        assert(word_views(out@) =~= removed_spec(x_display is Some));
    }
    out
}

/// An app that the bus starts reaches the same display as one started from a
/// terminal: everything that a terminal's environment says of the toolkits, the
/// bus's says too, and nothing of it is taken out.
pub proof fn law_bus_and_terminals_share_the_display(
    runtime_dir: Seq<char>,
    display: Seq<char>,
    x_display: Option<Seq<char>>,
    i: int,
)
    requires
        0 <= i < toolkit_pairs(x_display).len(),
    ensures
        bus_environment_spec(runtime_dir, display, x_display).contains(
            toolkit_pairs(x_display)[i],
        ),
        !removed_spec(x_display is Some).contains(toolkit_pairs(x_display)[i].0),
{
    let pairs = toolkit_pairs(x_display);
    assert(bus_environment_spec(runtime_dir, display, x_display)[i + 2] == pairs[i]);
    reveal_strlit("DISPLAY");
    reveal_strlit("DBUS_SESSION_BUS_ADDRESS");
    reveal_strlit("DBUS_SYSTEM_BUS_ADDRESS");
    reveal_strlit("XDG_SESSION_TYPE");
    reveal_strlit("NIXOS_OZONE_WL");
    reveal_strlit("ELECTRON_OZONE_PLATFORM_HINT");
    reveal_strlit("MOZ_ENABLE_WAYLAND");
    reveal_strlit("GDK_BACKEND");
    reveal_strlit("QT_QPA_PLATFORM");
    reveal_strlit("SDL_VIDEODRIVER");
    reveal_strlit("_JAVA_AWT_WM_NONREPARENTING");
    assert(i == 0 || i == 1 || i == 2 || i == 3 || i == 4 || i == 5 || i == 6 || i == 7 || i == 8);
    let n = pairs[i].0.len();
    assert(n != 23 && n != 24);
    assert(x_display is None ==> n != 7);
    assert forall|k: int| 0 <= k < removed_spec(x_display is Some).len() implies
        #[trigger] removed_spec(x_display is Some)[k] != pairs[i].0 by {
        assert(k == 0 || k == 1 || k == 2);
    }
}

/// The arguments that the bus is started with.
pub fn bus_arguments() -> (out: Vec<&'static str>)
    ensures
        word_views(out@) == seq!["--session"@, "--print-address=1"@, "--nofork"@],
{
    let mut out: Vec<&'static str> = Vec::new();
    out.push("--session");
    out.push("--print-address=1");
    out.push("--nofork");
    proof {
        assert(word_views(out@) =~= seq!["--session"@, "--print-address=1"@, "--nofork"@]);
    }
    out
}

} // verus!
