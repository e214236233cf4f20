use rwpspread::config::{Config, Locker};
use rwpspread::integrations::{Hyprlock, Hyprpaper, Swaybg, Swaylock, Wpaperd};
use rwpspread::monitor::Monitor;
use rwpspread::orchestrator::{on_run_complete, on_trigger, RunAction, RunState};
use rwpspread::worker::{plan_run, select_image, workdir_for, Worker};

fn mon(name: &str, w: u32, h: u32, x: i32, y: i32) -> Monitor {
    Monitor {
        name: name.to_string(),
        width: w,
        height: h,
        initial_width: w,
        initial_height: h,
        x,
        y,
    }
}

fn base_config() -> Config {
    Config {
        input_path: "/tmp/in.png".to_string(),
        raw_input_path: "in.png".to_string(),
        output_path: Some("/work".to_string()),
        backend: None,
        locker: None,
        bezel: None,
        diagonals: Vec::new(),
        ppi: false,
        daemon: false,
        palette: false,
        force_resplit: false,
        info: false,
        align: None,
        pre_path: None,
        post_path: None,
        watch: false,
    }
}

fn two_monitors() -> Vec<Monitor> {
    vec![mon("A", 1920, 1080, 0, 0), mon("B", 1920, 1080, 1920, 0)]
}

#[test]
fn worker_starts_empty() {
    let w = Worker::new();
    assert!(w.hash.is_empty());
    assert!(w.workdir.is_empty());
    assert!(w.output.is_empty());
}

#[test]
fn workdir_selection_follows_mode() {
    let home = "/home/u".to_string();
    let pwd = "/cur".to_string();
    let explicit = Some("/out".to_string());
    assert_eq!(workdir_for(&explicit, false, false, &home, &pwd), "/out");
    assert_eq!(workdir_for(&None, true, false, &home, &pwd), "/home/u/.cache/rwpspread");
    assert_eq!(workdir_for(&None, false, true, &home, &pwd), "/home/u/.cache/rwpspread");
    assert_eq!(workdir_for(&None, false, false, &home, &pwd), "/cur");
}

#[test]
fn select_image_picks_by_external_index() {
    let empty: Vec<String> = Vec::new();
    assert_eq!(select_image(&empty, 3), None);
    let paths = vec!["a.png".to_string(), "b.jpg".to_string(), "c.jpeg".to_string()];
    assert_eq!(select_image(&paths, 0), Some("a.png".to_string()));
    assert_eq!(select_image(&paths, 4), Some("b.jpg".to_string()));
}

#[test]
fn first_run_regenerates_second_run_reuses() {
    let config = base_config();
    let monitors = two_monitors();
    let source = vec![7u8; 64];
    let home = "/home/u".to_string();
    let pwd = "/cur".to_string();
    let found: Vec<String> = Vec::new();
    let first = plan_run(&config, &monitors, &source, 1000, 500, &found, &home, &pwd).unwrap();
    assert!(first.regenerate);
    assert!(!first.caches_present);
    let pp = first.partition.as_ref().unwrap();
    assert_eq!(pp.crops.len(), 2);
    assert_eq!(first.workdir, "/work");
    assert_eq!(first.hash.len(), 64);
    assert_eq!(
        first.expected,
        vec![
            format!("rwps_A_{}.png", first.hash),
            format!("rwps_B_{}.png", first.hash),
        ]
    );
    // Second run with exactly the produced artifacts present: identical
    // key, no regeneration.
    let second =
        plan_run(&config, &monitors, &source, 1000, 500, &first.expected, &home, &pwd).unwrap();
    assert_eq!(second.hash, first.hash);
    assert!(second.caches_present);
    assert!(!second.regenerate);
    assert!(second.partition.is_none());
}

#[test]
fn force_resplit_regenerates_despite_matching_cache() {
    let mut config = base_config();
    config.force_resplit = true;
    let monitors = two_monitors();
    let source = vec![7u8; 64];
    let home = "/h".to_string();
    let pwd = "/c".to_string();
    let probe = plan_run(&config, &monitors, &source, 1000, 500, &Vec::new(), &home, &pwd)
        .unwrap();
    let rerun =
        plan_run(&config, &monitors, &source, 1000, 500, &probe.expected, &home, &pwd).unwrap();
    assert!(rerun.caches_present);
    assert!(rerun.regenerate);
    assert!(rerun.partition.is_some());
}

#[test]
fn changed_source_invalidates_the_cache() {
    let config = base_config();
    let monitors = two_monitors();
    let home = "/h".to_string();
    let pwd = "/c".to_string();
    let first =
        plan_run(&config, &monitors, &vec![1u8, 2, 3], 1000, 500, &Vec::new(), &home, &pwd)
            .unwrap();
    let second =
        plan_run(&config, &monitors, &vec![1u8, 2, 4], 1000, 500, &first.expected, &home, &pwd)
            .unwrap();
    assert_ne!(second.hash, first.hash);
    assert!(!second.caches_present);
    assert!(second.regenerate);
}

#[test]
fn ppi_with_unknown_monitor_name_fails_the_run() {
    let mut config = base_config();
    config.ppi = true;
    config.diagonals = vec![("HDMI-9".to_string(), 27)];
    let monitors = two_monitors();
    let r = plan_run(
        &config,
        &monitors,
        &vec![1u8],
        1000,
        500,
        &Vec::new(),
        &"/h".to_string(),
        &"/c".to_string(),
    );
    assert_eq!(r.unwrap_err().message(), "missing monitor definitions!");
}

#[test]
fn locker_sidecar_participates_in_the_expected_set() {
    let mut config = base_config();
    config.locker = Some(Locker::Swaylock);
    config.palette = true;
    let monitors = two_monitors();
    let rp = plan_run(
        &config,
        &monitors,
        &vec![5u8],
        1000,
        500,
        &Vec::new(),
        &"/h".to_string(),
        &"/c".to_string(),
    )
    .unwrap();
    assert_eq!(rp.expected.len(), 4);
    assert_eq!(rp.expected[2], "rwps_swaylock.conf");
    assert_eq!(rp.expected[3], "rwps_colors.json");
}

#[test]
fn swaybg_arguments_pair_outputs_with_images() {
    let wallpapers = vec![
        ("A".to_string(), "/w/rwps_A.png".to_string()),
        ("B".to_string(), "/w/rwps_B.png".to_string()),
    ];
    let args = Swaybg::new(&wallpapers);
    assert_eq!(
        args,
        vec!["-o", "A", "-i", "/w/rwps_A.png", "-o", "B", "-i", "/w/rwps_B.png"]
    );
}

#[test]
fn locker_config_contents() {
    let wallpapers = vec![
        ("A".to_string(), "/w/a.png".to_string()),
        ("B".to_string(), "/w/b.png".to_string()),
    ];
    assert_eq!(Swaylock::config_content(&wallpapers), "-i A:/w/a.png -i B:/w/b.png ");
    assert_eq!(
        Hyprlock::config_content(&wallpapers),
        "background {\n\tmonitor = A\n\tpath = /w/a.png\n}\n\n\
         background {\n\tmonitor = B\n\tpath = /w/b.png\n}\n\n"
    );
}

#[test]
fn hyprpaper_commands_and_acknowledgements() {
    assert_eq!(Hyprpaper::unload_command(), "unload all");
    assert_eq!(Hyprpaper::preload_command(&"/w/a.png".to_string()), "preload /w/a.png");
    assert_eq!(
        Hyprpaper::wallpaper_command(&"A".to_string(), &"/w/a.png".to_string()),
        "wallpaper A,/w/a.png"
    );
    assert!(Hyprpaper::ack_ok(&b"ok".to_vec()));
    assert!(Hyprpaper::ack_ok(&b"all OK here".to_vec()));
    assert!(Hyprpaper::ack_ok(&b"oK\0\0".to_vec()));
    assert!(!Hyprpaper::ack_ok(&b"no".to_vec()));
    assert!(!Hyprpaper::ack_ok(&b"o".to_vec()));
    assert!(!Hyprpaper::ack_ok(&b"".to_vec()));
}

#[test]
fn wpaperd_config_content_and_hash_check() {
    let wallpapers = vec![("A".to_string(), "/w/a.png".to_string())];
    let content = Wpaperd::build_content(
        &"deadbeef".to_string(),
        &"/pics/in.png".to_string(),
        &wallpapers,
    );
    assert_eq!(
        content,
        "# deadbeef\n# DO NOT EDIT! AUTOGENERATED CONFIG!\n\n\
         [default]\npath = \"/pics/in.png\"\n\n\
         [A]\npath = \"/w/a.png\"\n\n"
    );
    assert!(Wpaperd::check_existing(&content, &"deadbeef".to_string()));
    assert!(!Wpaperd::check_existing(&content, &"feedface".to_string()));
    assert!(!Wpaperd::check_existing(&"".to_string(), &"deadbeef".to_string()));
}

#[test]
fn daemon_runs_never_overlap_and_triggers_drain() {
    // A trigger from idle starts a run at once.
    let (s, a) = on_trigger(RunState::Idle);
    assert_eq!(a, RunAction::StartRun);
    assert_eq!(s, RunState::Running { queued: false });
    // A trigger mid-run waits, queued.
    let (s, a) = on_trigger(s);
    assert_eq!(a, RunAction::Wait);
    assert_eq!(s, RunState::Running { queued: true });
    // Completion drains the queued trigger into exactly one new run.
    let (s, a) = on_run_complete(s);
    assert_eq!(a, RunAction::StartRun);
    assert_eq!(s, RunState::Running { queued: false });
    // Completion without a queued trigger goes idle.
    let (s, a) = on_run_complete(s);
    assert_eq!(a, RunAction::Wait);
    assert_eq!(s, RunState::Idle);
}

#[test]
fn bezel_runs_reuse_their_cache_too() {
    // The relaxation is deterministic, so a bezel run hashes the same
    // layout both times and the second run regenerates nothing.
    let mut config = base_config();
    config.bezel = Some(50);
    let monitors = two_monitors();
    let source = vec![3u8; 16];
    let home = "/h".to_string();
    let pwd = "/c".to_string();
    let first = plan_run(&config, &monitors, &source, 1000, 500, &Vec::new(), &home, &pwd)
        .unwrap();
    assert!(first.regenerate);
    let second =
        plan_run(&config, &monitors, &source, 1000, 500, &first.expected, &home, &pwd).unwrap();
    assert_eq!(second.hash, first.hash);
    assert!(second.caches_present);
    assert!(!second.regenerate);
}
