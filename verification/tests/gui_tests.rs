use aitoolgrep::gui::{
    confirmation_step, initial_form, replace_button_label, replace_click, search_enabled, stats_enabled,
    ConfirmChoice, ReplaceClick, Tab,
};

#[test]
fn the_window_opens_in_dry_run_mode() {
    let f = initial_form("/home/u/project".to_string());
    assert_eq!(f.active_tab, Tab::Search);
    assert_eq!(f.path, "/home/u/project");
    assert!(f.dry_run);
    assert!(!f.backup && !f.ignore_case && !f.regex && !f.json_output && !f.confirm_replace);
    assert!(!f.task.busy);
    assert!(f.task.receiver.is_none());
    assert_eq!(f.task.status, "Hazir");
    assert_eq!(f.task.output, "Bir komut calistirdiginizda sonuclar burada gorunecek.");
}

#[test]
fn replace_button_previews_or_asks() {
    assert_eq!(replace_click(false, "old", "/p", true), ReplaceClick::Preview);
    assert_eq!(replace_click(false, "old", "/p", false), ReplaceClick::AskConfirmation);
    assert_eq!(replace_click(true, "old", "/p", false), ReplaceClick::Disabled);
    assert_eq!(replace_click(false, "", "/p", true), ReplaceClick::Disabled);
    assert_eq!(replace_click(false, "old", "", false), ReplaceClick::Disabled);
    assert_eq!(replace_button_label(true), "Degisiklikleri Onizle");
    assert_eq!(replace_button_label(false), "Degisiklikleri Uygula");
}

#[test]
fn confirmation_window_steps() {
    assert_eq!(confirmation_step(true, ConfirmChoice::Pending), (true, false));
    assert_eq!(confirmation_step(true, ConfirmChoice::Cancel), (false, false));
    assert_eq!(confirmation_step(true, ConfirmChoice::Confirm), (false, true));
    assert_eq!(confirmation_step(false, ConfirmChoice::Confirm), (false, false));
}

#[test]
fn search_and_stats_buttons() {
    assert!(search_enabled(false, "x", "."));
    assert!(!search_enabled(true, "x", "."));
    assert!(!search_enabled(false, "", "."));
    assert!(!search_enabled(false, "x", ""));
    assert!(stats_enabled(false, "."));
    assert!(!stats_enabled(true, "."));
    assert!(!stats_enabled(false, ""));
}

#[test]
fn form_options_trim_the_path() {
    let mut f = initial_form(" \t./src \u{3000}\n".to_string());
    f.search_pattern = "Login".to_string();
    f.ignore_case = true;
    f.old_text = "a".to_string();
    f.new_text = "b".to_string();
    f.backup = true;
    let s = f.search_options();
    assert_eq!((s.pattern.as_str(), s.path.as_str(), s.ignore_case, s.regex), ("Login", "./src", true, false));
    let r = f.replace_options();
    assert_eq!(
        (r.old_text.as_str(), r.new_text.as_str(), r.path.as_str(), r.dry_run, r.backup),
        ("a", "b", "./src", true, true)
    );
    assert_eq!(f.stats_options().path, "./src");
    let blank = initial_form(" \u{85}\u{a0} ".to_string());
    assert_eq!(blank.stats_options().path, "");
}

#[test]
fn trimming_matches_std() {
    let samples = ["", "  ", "a", " a b ", "\u{2000}x\u{200a}", "\u{200b}y\u{200b}", "\r\nz\t", "\u{feff}q"];
    for s in samples {
        let f = initial_form(s.to_string());
        assert_eq!(f.stats_options().path, s.trim());
    }
}
