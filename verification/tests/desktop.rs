use blit_server::app_env::toolkit_env;
use blit_server::desktop_bus::{
    bus_address, bus_arguments, bus_environment, no_filename, removed_environment,
    services_disabled, timeouts,
};
use blit_server::gpu_libs::{
    library_names, load_result, open_result, optional_symbols, required_symbols, symbol_error,
    Attempt, GpuLibrary,
};

fn set(s: &str) -> Option<String> {
    Some(s.to_string())
}

#[test]
fn notification_times_stay_in_order() {
    let t = timeouts(&None, &None, &None);
    assert_eq!((t.minimum_ms, t.default_ms, t.maximum_ms), (1000, 10_000, 86_400_000));
    let t = timeouts(&set("5000"), &set("10"), &set("7"));
    assert_eq!((t.minimum_ms, t.default_ms, t.maximum_ms), (5000, 5000, 5000));
    let t = timeouts(&set("1"), &set("50"), &set("99"));
    assert_eq!(t.default_ms, 50);
    let t = timeouts(&set("soon"), &None, &set("-1"));
    assert_eq!((t.minimum_ms, t.default_ms), (1000, 10_000));
}

#[test]
fn the_bus_address_is_trimmed_and_needed() {
    assert_eq!(
        bus_address("unix:path=/tmp/bus,guid=1\n").unwrap(),
        "unix:path=/tmp/bus,guid=1"
    );
    assert_eq!(
        bus_address(" \n").unwrap_err(),
        "private D-Bus session exited without printing an address"
    );
    assert_eq!(no_filename("/"), "Wayland socket has no filename: /");
    assert!(services_disabled(&set("0")));
    assert!(!services_disabled(&set("1")));
    assert!(!services_disabled(&None));
}

#[test]
fn the_bus_lives_on_the_servers_display() {
    let env = bus_environment("/run/user/1", "wayland-7", None);
    assert_eq!(env.len(), 9);
    assert_eq!((env[0].name, env[0].value.as_str()), ("XDG_RUNTIME_DIR", "/run/user/1"));
    assert_eq!((env[1].name, env[1].value.as_str()), ("WAYLAND_DISPLAY", "wayland-7"));
    assert_eq!((env[8].name, env[8].value.as_str()), ("SDL_VIDEODRIVER", "wayland"));
    assert_eq!(
        removed_environment(None),
        vec!["DISPLAY", "DBUS_SESSION_BUS_ADDRESS", "DBUS_SYSTEM_BUS_ADDRESS"]
    );
    assert_eq!(bus_arguments(), vec!["--session", "--print-address=1", "--nofork"]);
}

#[test]
fn the_bus_and_the_terminals_share_the_bridge() {
    for bridge in [None, Some(":20")] {
        let env = bus_environment("/run/user/1", "wayland-7", bridge);
        let pairs: Vec<(&str, String)> =
            env.into_iter().skip(2).map(|s| (s.name, s.value)).collect();
        assert_eq!(pairs, toolkit_env(bridge));
    }
    let env = bus_environment("/run/user/1", "wayland-7", Some(":20"));
    assert!(env.iter().any(|s| s.name == "DISPLAY" && s.value == ":20"));
    assert!(env.iter().any(|s| s.name == "GDK_BACKEND" && s.value == "wayland,x11"));
    assert_eq!(
        removed_environment(Some(":20")),
        vec!["DBUS_SESSION_BUS_ADDRESS", "DBUS_SYSTEM_BUS_ADDRESS"]
    );
}

#[test]
fn drivers_are_looked_for_by_version_first() {
    assert_eq!(library_names(GpuLibrary::Cuda), vec!["libcuda.so.1", "libcuda.so"]);
    assert_eq!(library_names(GpuLibrary::VaDrm), vec!["libva-drm.so.2", "libva-drm.so"]);
    assert_eq!(required_symbols(GpuLibrary::Cuda).len(), 13);
    assert_eq!(required_symbols(GpuLibrary::Va).len(), 20);
    assert_eq!(required_symbols(GpuLibrary::NvEnc), vec!["NvEncodeAPICreateInstance"]);
    assert_eq!(optional_symbols(GpuLibrary::Cuda).len(), 3);
    assert!(optional_symbols(GpuLibrary::Va).is_empty());
}

#[test]
fn the_first_library_that_loads_is_used() {
    let missing = |s: &str| Attempt::Missing(set(s));
    assert_eq!(open_result(&vec![missing("a"), Attempt::Loaded, Attempt::Loaded]), Ok(1));
    assert_eq!(
        open_result(&vec![missing("a"), missing("b"), Attempt::Missing(None), Attempt::Skipped]),
        Err("b".to_string())
    );
    assert_eq!(open_result(&vec![Attempt::Skipped]), Err(String::new()));
}

#[test]
fn the_first_missing_function_tells_why() {
    assert_eq!(symbol_error("cuInit", &set("undefined")), "cuInit: undefined");
    assert_eq!(symbol_error("cuInit", &None), "cuInit: symbol not found");
    assert_eq!(load_result(vec![None, None]), Ok(()));
    assert_eq!(load_result(vec![None, set("x"), set("y")]), Err("x".to_string()));
}
