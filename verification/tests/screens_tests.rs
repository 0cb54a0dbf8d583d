use vaultseed::benchmark_view::{verify_costs, benchmark_config_view, calibration_outcome, calibration_done_message};
use vaultseed::emoji_text::{split_emoji_runs, TextLine};
use vaultseed::local_settings::LocalSettings;
use vaultseed::overlay::Overlays;
use vaultseed::pick_path::android_picked_path;
use vaultseed::selection::{Selection, default_session_path, check_add_restriction, offered_session_path};
use vaultseed::session_forms::Comparison;
use vaultseed::tutorial::Argon2Costs;

fn settings() -> LocalSettings {
    LocalSettings {
        calibration_min_target_ms: None,
        calibration_max_target_ms: Some(2500),
        benchmark_m_cost_kib: Some(131072),
        benchmark_t_cost: None,
        benchmark_p_cost: Some(8),
        benchmark_device_count: None,
        benchmark_domains_per_device: Some(50),
        benchmark_static_per_device: None,
        benchmark_k1_len: None,
        benchmark_k2_len: Some(20),
        wasm_browser_storage: false,
    }
}

#[test]
fn overlays_hand_out_the_confirmed_action_once() {
    let mut o = Overlays::new();
    assert!(!o.loading_show && !o.confirm_show && !o.toast_show);
    o.show_loading("A guardar sessão...");
    assert!(o.loading_show);
    assert_eq!(o.loading_message, "A guardar sessão...");
    o.hide_loading();
    assert!(!o.loading_show);
    o.ask_confirm("Remover?", "Irreversível.", "danger", "remove-device:x".to_string());
    assert!(o.confirm_show);
    assert_eq!(o.confirm_ok(), Some("remove-device:x".to_string()));
    assert!(!o.confirm_show);
    assert_eq!(o.confirm_ok(), None);
    o.ask_confirm("t", "m", "warning", "rotate-keys".to_string());
    o.confirm_cancel();
    assert_eq!(o.pending_action, None);
    o.show_toast("Feito", "success");
    assert_eq!((o.toast_message.as_str(), o.toast_variant.as_str(), o.toast_show), ("Feito", "success", true));
    o.expire_toast();
    assert!(!o.toast_show);
    o.show_loading("x");
    o.show_toast("y", "info");
    o.hide_all_overlays();
    assert!(!o.loading_show && !o.confirm_show && !o.toast_show);
    assert_eq!(o.toast_message, "y");
}

#[test]
fn timing_run_costs() {
    assert_eq!(verify_costs("262144", "5", "8"), Argon2Costs { m: 262144, t: 5, p: 8 });
    assert_eq!(verify_costs("1", "1", "1"), Argon2Costs { m: 65536, t: 3, p: 4 });
    assert_eq!(verify_costs(" 262144", "x", ""), Argon2Costs { m: 65536, t: 3, p: 4 });
}

#[test]
fn benchmark_summary() {
    let v = benchmark_config_view(&settings(), 1000, 2000);
    assert_eq!((v.min_ms.as_str(), v.max_ms.as_str()), ("1000", "2500"));
    assert_eq!(v.argon2_m, "131072 KiB");
    assert_eq!(v.argon2_t, "3 (mínimo)");
    assert_eq!(v.argon2_p, "8");
    assert_eq!((v.devices.as_str(), v.domains.as_str(), v.static_passwords.as_str()), ("2 (padrão)", "50", "100 (padrão)"));
    assert_eq!((v.k1_len.as_str(), v.k2_len.as_str()), ("12 (padrão)", "20"));
    let mut unset = settings();
    unset.benchmark_m_cost_kib = None;
    assert_eq!(benchmark_config_view(&unset, 1, 2).argon2_m, "65536 KiB (mínimo)");
}

#[test]
fn calibration_outcomes() {
    let below = calibration_outcome(800, 1000, 2000);
    assert_eq!((below.comparison, below.diff_ms), (Comparison::Below, 200));
    let within = calibration_outcome(1500, 1000, 2000);
    assert_eq!((within.comparison, within.diff_ms), (Comparison::Within, 0));
    let above = calibration_outcome(2600, 1000, 2000);
    assert_eq!((above.comparison, above.diff_ms), (Comparison::Above, 600));
    assert_eq!(
        calibration_done_message(Argon2Costs { m: 131072, t: 4, p: 4 }, 1234),
        "Calibração concluída: m=131072 KiB t=4 p=4 (1234ms)"
    );
}

fn render(lines: &[TextLine]) -> Vec<Vec<(String, bool)>> {
    lines.iter().map(|l| l.runs.iter().map(|r| (r.text.clone(), r.emoji)).collect()).collect()
}

#[test]
fn emoji_runs_and_lines() {
    let text = "ab😀😀cdefgh😀";
    let flags: Vec<bool> = text.chars().map(|c| c == '😀').collect();
    let lines = split_emoji_runs(text, &flags, 4);
    assert_eq!(render(&lines), vec![
        vec![("ab".to_string(), false), ("😀😀".to_string(), true), ("cd".to_string(), false)],
        vec![("efgh".to_string(), false), ("😀".to_string(), true)],
    ]);
    let wide = split_emoji_runs(text, &flags, 100);
    assert_eq!(wide.len(), 1);
    assert_eq!(wide[0].runs.len(), 4);
    assert!(split_emoji_runs("", &Vec::new(), 10).is_empty());
}

#[test]
fn every_line_but_the_last_is_full() {
    let text = "x".repeat(20);
    let flags = vec![false; 20];
    let lines = split_emoji_runs(&text, &flags, 7);
    let lens: Vec<usize> = lines.iter().map(|l| l.runs.iter().map(|r| r.text.chars().count()).sum()).collect();
    assert_eq!(lens, vec![7, 7, 6]);
    let joined: String = lines.iter().flat_map(|l| l.runs.iter().map(|r| r.text.clone())).collect();
    assert_eq!(joined, text);
}

#[test]
fn selection_changes() {
    let mut s = Selection::new();
    s.static_compromised_mode = true;
    s.device = Some(1);
    s.show_domain(10, 100);
    assert_eq!((s.device, s.restriction, s.domain), (None, Some(10), Some(100)));
    assert!(s.static_compromised_mode);
    s.show_static_password(2, "Casa".to_string(), 200);
    assert_eq!((s.device, s.folder.as_deref(), s.static_password), (Some(2), Some("Casa"), Some(200)));
    assert_eq!(s.restriction, Some(10));
    s.clear();
    assert_eq!((s.device, s.restriction, s.domain, s.static_password), (None, None, None, None));
    assert_eq!(s.folder, None);
    assert!(!s.static_compromised_mode);
    assert_eq!(default_session_path(None), "session.vaultseed");
    assert_eq!(default_session_path(Some("/d/s.vaultseed".to_string())), "/d/s.vaultseed");
}

#[test]
fn android_picker_paths() {
    let dir = "/data/user/0/app/files/";
    assert_eq!(android_picked_path("save-file", " C:\\x\\mine.vaultseed ", dir), "/data/user/0/app/files/mine.vaultseed");
    assert_eq!(android_picked_path("save-file", "/sdcard/", dir), "/data/user/0/app/files/session.vaultseed");
    assert_eq!(android_picked_path("save-file", "", "/f"), "/f/session.vaultseed");
    assert_eq!(android_picked_path("save-file", "s.v", ""), "s.v");
    assert_eq!(android_picked_path("folder", "old", dir), dir);
    assert_eq!(android_picked_path("folder", "old", ""), "old");
    assert_eq!(android_picked_path("open-file", "old", dir), "old");
}

#[test]
fn selection_follows_the_device_pages() {
    let mut s = Selection::new();
    s.select_device(Some(1));
    s.select_restriction(Some(10));
    s.select_domain(Some(100));
    s.select_static_password(Some(7));
    s.select_device(Some(2));
    assert_eq!((s.device, s.restriction, s.domain, s.static_password), (Some(2), None, None, None));
    s.select_restriction(Some(11));
    s.select_domain(Some(110));
    s.select_device(None);
    assert_eq!((s.device, s.restriction, s.domain), (None, Some(11), Some(110)));
    s.device_created(3);
    s.device_removed(4);
    assert_eq!((s.device, s.restriction), (Some(3), Some(11)));
    s.device_removed(3);
    assert_eq!((s.device, s.restriction, s.domain), (None, None, None));
    s.open_restrictions(5);
    s.select_restriction(Some(50));
    s.select_domain(Some(500));
    s.restriction_removed(51);
    assert_eq!(s.domain, Some(500));
    s.restriction_removed(50);
    assert_eq!((s.restriction, s.domain), (None, None));
    s.select_restriction(Some(50));
    s.select_domain(Some(500));
    s.domain_removed(500);
    assert_eq!(s.domain, None);
    s.back_to_devices();
    assert_eq!((s.device, s.restriction), (Some(5), None));
    s.open_static_passwords(6);
    s.folder_created("Nova".to_string());
    s.select_static_password(Some(60));
    s.static_password_removed(61);
    assert_eq!(s.static_password, Some(60));
    s.static_password_removed(60);
    assert_eq!(s.static_password, None);
    s.select_static_password(Some(60));
    assert!(s.toggle_compromised_mode());
    assert_eq!(s.static_password, None);
    assert!(!s.toggle_compromised_mode());
    s.leave_static_passwords();
    assert_eq!((s.folder.as_deref(), s.static_compromised_mode), (None, false));
    assert_eq!(s.device, Some(6));
}

#[test]
fn new_restrictions_need_a_name_and_a_device() {
    assert_eq!(check_add_restriction(" ", Some(1)), Err("O nome não pode estar vazio.".to_string()));
    assert_eq!(check_add_restriction("Web", None), Err("Nenhum dispositivo selecionado.".to_string()));
    assert_eq!(check_add_restriction("Web", Some(1)), Ok(1));
}

#[test]
fn line_count_is_the_length_over_the_limit_rounded_up() {
    for (n, per_line, lines) in [(0usize, 10usize, 0usize), (6, 2, 1), (7, 2, 2), (13, 6, 3), (12, 6, 2), (5, 100, 1)] {
        let text = "y".repeat(n);
        let flags = vec![false; n];
        assert_eq!(split_emoji_runs(&text, &flags, per_line).len(), lines);
    }
}

#[test]
fn last_session_path_is_offered_when_present() {
    assert_eq!(offered_session_path(Some("/tmp/s.vaultseed".to_string()), true), Some("/tmp/s.vaultseed".to_string()));
    assert_eq!(offered_session_path(Some("/tmp/s.vaultseed".to_string()), false), None);
    assert_eq!(offered_session_path(Some("   ".to_string()), true), None);
    assert_eq!(offered_session_path(None, true), None);
}
