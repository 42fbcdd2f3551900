use cortana::visual::{appearance_splash, boot_splash, colorize, session_start_banner, BOLD};

#[test]
fn boot_splash_contains_required_greeting() {
    assert!(boot_splash().contains("Hi, I’m Cortana."));
}

#[test]
fn appearance_splash_is_pixelated_and_blue() {
    let splash = appearance_splash();

    assert!(splash.contains("▓"));
    assert!(splash.contains("\x1b[38;5;45m") || splash.contains("\x1b[38;5;39m"));
}

#[test]
fn session_banner_announces_presence() {
    assert!(session_start_banner().contains("Cortana presence online"));
}

#[test]
fn colorize_wraps_text_in_color_and_reset() {
    assert_eq!(colorize("hi", "\x1b[1m"), "\x1b[1mhi\x1b[0m");
}

#[test]
fn session_banner_starts_with_boot_splash() {
    assert!(session_start_banner().starts_with(&format!("{}{}", BOLD, boot_splash())));
}
