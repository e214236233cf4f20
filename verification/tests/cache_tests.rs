use rwpspread::cache::{
    alias_file_name, artifact_file_name, cache_key, cache_valid, decide_regenerate,
    expected_names, is_cache_artifact, locker_file_name, palette_file_name,
};
use rwpspread::config::{Alignment, Backend, Config, Locker};
use rwpspread::layout::{resolve, MonitorXY};
use rwpspread::monitor::Monitor;

fn mon(name: &str, w: u32, h: u32, x: i32, y: i32) -> Monitor {
    Monitor {
        name: name.to_string(),
        width: w,
        height: h,
        initial_width: w,
        initial_height: h,
        x,
        y,
    }
}

fn base_config() -> Config {
    Config {
        input_path: "/tmp/in.png".to_string(),
        raw_input_path: "in.png".to_string(),
        output_path: None,
        backend: None,
        locker: None,
        bezel: None,
        diagonals: Vec::new(),
        ppi: false,
        daemon: false,
        palette: false,
        force_resplit: false,
        info: false,
        align: None,
        pre_path: None,
        post_path: None,
        watch: false,
    }
}

fn base_layout() -> Vec<MonitorXY> {
    let monitors = vec![mon("A", 1920, 1080, 0, 0), mon("B", 1920, 1080, 1920, 0)];
    resolve(&monitors, None, &None).unwrap()
}

#[test]
fn identical_inputs_give_identical_keys() {
    let c = base_config();
    let layout = base_layout();
    let source = vec![1u8, 2, 3, 4, 5];
    let k1 = cache_key(&c, &layout, &source);
    let k2 = cache_key(&c, &layout, &source);
    assert_eq!(k1, k2);
    assert_eq!(k1.len(), 64);
    // With a matching cache and no force, the second run regenerates
    // nothing.
    assert!(!decide_regenerate(false, true));
}

#[test]
fn changing_alignment_changes_the_key() {
    let c1 = base_config();
    let mut c2 = base_config();
    c2.align = Some(Alignment::Ct);
    let layout = base_layout();
    let source = vec![1u8, 2, 3];
    assert_ne!(cache_key(&c1, &layout, &source), cache_key(&c2, &layout, &source));
}

#[test]
fn changing_bezel_changes_the_key() {
    let c1 = base_config();
    let mut c2 = base_config();
    c2.bezel = Some(20);
    let layout = base_layout();
    let source = vec![1u8, 2, 3];
    assert_ne!(cache_key(&c1, &layout, &source), cache_key(&c2, &layout, &source));
}

#[test]
fn changing_a_monitor_position_changes_the_key() {
    let c = base_config();
    let l1 = base_layout();
    let mut l2 = l1.clone();
    l2[1].x1 += 8;
    l2[1].x2 += 8;
    let source = vec![1u8, 2, 3];
    assert_ne!(cache_key(&c, &l1, &source), cache_key(&c, &l2, &source));
}

#[test]
fn changing_source_bytes_changes_the_key() {
    let c = base_config();
    let layout = base_layout();
    assert_ne!(
        cache_key(&c, &layout, &vec![1u8, 2, 3]),
        cache_key(&c, &layout, &vec![1u8, 2, 4])
    );
    assert_ne!(
        cache_key(&c, &layout, &vec![1u8, 2, 3]),
        cache_key(&c, &layout, &vec![1u8, 2, 3, 0])
    );
}

#[test]
fn changing_backend_or_locker_or_palette_changes_the_key() {
    let layout = base_layout();
    let source = vec![9u8];
    let base = cache_key(&base_config(), &layout, &source);
    let mut c = base_config();
    c.backend = Some(Backend::Swaybg);
    assert_ne!(cache_key(&c, &layout, &source), base);
    let mut c = base_config();
    c.locker = Some(Locker::Hyprlock);
    assert_ne!(cache_key(&c, &layout, &source), base);
    let mut c = base_config();
    c.palette = true;
    assert_ne!(cache_key(&c, &layout, &source), base);
}

#[test]
fn artifact_names_follow_the_fixed_scheme() {
    let name = "DP-1".to_string();
    let hash = "abc123".to_string();
    assert_eq!(artifact_file_name(&name, &hash), "rwps_DP-1_abc123.png");
    assert_eq!(alias_file_name(&name), "rwps_DP-1.png");
    assert_eq!(locker_file_name(&Locker::Swaylock), "rwps_swaylock.conf");
    assert_eq!(locker_file_name(&Locker::Hyprlock), "rwps_hyprlock.conf");
    assert_eq!(palette_file_name(), "rwps_colors.json");
}

#[test]
fn expected_names_cover_monitors_and_sidecars() {
    let names = vec!["A".to_string(), "B".to_string()];
    let hash = "h1".to_string();
    let plain = expected_names(&names, &hash, &None, false);
    assert_eq!(plain, vec!["rwps_A_h1.png".to_string(), "rwps_B_h1.png".to_string()]);
    let full = expected_names(&names, &hash, &Some(Locker::Hyprlock), true);
    assert_eq!(
        full,
        vec![
            "rwps_A_h1.png".to_string(),
            "rwps_B_h1.png".to_string(),
            "rwps_hyprlock.conf".to_string(),
            "rwps_colors.json".to_string(),
        ]
    );
}

#[test]
fn cache_validity_is_exact_set_equality() {
    let expected = vec!["rwps_A_h.png".to_string(), "rwps_B_h.png".to_string()];
    let same_other_order = vec!["rwps_B_h.png".to_string(), "rwps_A_h.png".to_string()];
    assert!(cache_valid(&same_other_order, &expected));
    // A missing expected file invalidates.
    let missing = vec!["rwps_A_h.png".to_string()];
    assert!(!cache_valid(&missing, &expected));
    // A stale extra file invalidates too.
    let extra = vec![
        "rwps_A_h.png".to_string(),
        "rwps_B_h.png".to_string(),
        "rwps_A_old.png".to_string(),
    ];
    assert!(!cache_valid(&extra, &expected));
    let empty: Vec<String> = Vec::new();
    assert!(cache_valid(&empty, &empty));
}

#[test]
fn force_resplit_bypasses_a_matching_cache() {
    // Scenario: the cache matches exactly, but the force flag regenerates
    // anyway.
    assert!(decide_regenerate(true, true));
    assert!(decide_regenerate(true, false));
    assert!(decide_regenerate(false, false));
    assert!(!decide_regenerate(false, true));
}

#[test]
fn cleanup_matches_only_the_artifact_prefix() {
    assert!(is_cache_artifact(&"rwps_A_h.png".to_string()));
    assert!(is_cache_artifact(&"rwps_colors.json".to_string()));
    assert!(!is_cache_artifact(&"wallpaper.png".to_string()));
    assert!(!is_cache_artifact(&"rwp".to_string()));
    assert!(!is_cache_artifact(&"Rwps_A.png".to_string()));
}
