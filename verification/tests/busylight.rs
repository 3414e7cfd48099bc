//! The busy light: what colour the timer calls for, and which ports are tried.

use int_tasks::busylight::{
    available_ports, candidates, command_line, detectable_ports, dot_for, looks_like_a_device, mode_for, take_in,
    light_action, lets_go, settings_after, Awaited, LightAction, LightSettings, LightStatus, Mode,
};
use int_tasks::model::SessionKind;

fn names(list: &[&str]) -> Vec<String> {
    list.iter().map(|n| n.to_string()).collect()
}


#[test]
fn focus_and_meetings_both_mean_do_not_disturb() {
    assert_eq!(mode_for(true, false, SessionKind::Focus), Mode::Busy);
    assert_eq!(mode_for(true, false, SessionKind::Meeting), Mode::Busy);
}

#[test]
fn a_break_is_not_busy() {
    assert_eq!(mode_for(true, false, SessionKind::Break), Mode::Available);
}

#[test]
fn paused_is_not_busy_either() {
    // Stepping away mid-session is exactly when somebody may interrupt.
    assert_eq!(mode_for(true, true, SessionKind::Focus), Mode::Available);
}

#[test]
fn idle_is_green_rather_than_dark() {
    assert_eq!(mode_for(false, false, SessionKind::Focus), Mode::Available);
}

#[test]
fn the_dots_match_the_app_this_replaces() {
    assert_eq!(Mode::Busy.dot(), "🔴");
    assert_eq!(Mode::Available.dot(), "🟢");
    assert_eq!(Mode::Ringing.dot(), "🟠");
}

#[test]
fn a_disconnected_light_shows_that_it_is_disconnected() {
    let status = LightStatus {
        connected: false,
        port: None,
        mode: Some(Mode::Busy),
        message: String::new(),
        follow_timer: true,
        ports: vec![],
    };
    // Not the last colour it was: that would be a lie to anyone looking.
    assert_eq!(dot_for(&status), "◌");
}

#[test]
fn the_tty_half_of_every_device_is_ignored() {
    // Opening /dev/tty.usbmodem* blocks forever waiting for carrier, so it
    // must never appear as a candidate.
    let reported = names(&["/dev/tty.usbmodem1101", "/dev/cu.usbmodem1101", "/dev/tty.Bluetooth", "/dev/cu.JBLWAVEBUDS"]);
    let offered = available_ports(reported);
    for port in &offered {
        assert!(!port.starts_with("/dev/tty."), "{port} would hang on open");
    }
    assert_eq!(offered, names(&["/dev/cu.usbmodem1101", "/dev/cu.JBLWAVEBUDS"]), "devices come first");
}

#[test]
fn auto_detect_only_considers_usb_serial_devices() {
    let reported = names(&["/dev/cu.JBLWAVEBUDS", "/dev/cu.usbserial-10", "/dev/tty.usbserial-10", "/dev/cu.usbmodem1"]);
    let found = detectable_ports(reported);
    assert_eq!(found, names(&["/dev/cu.usbserial-10", "/dev/cu.usbmodem1"]));
    for port in found {
        assert!(
            looks_like_a_device(&port),
            "{port} is not a USB serial device and should not be probed"
        );
    }
}

#[test]
fn firmware_words_round_trip() {
    for mode in [Mode::Busy, Mode::Available, Mode::Ringing, Mode::Offline, Mode::Off] {
        assert_eq!(Mode::parse(mode.command()), Some(mode));
    }
    assert_eq!(Mode::parse("nonsense"), None);
}

#[test]
fn device_names_are_recognised() {
    assert!(looks_like_a_device("/dev/cu.usbmodem1101"));
    assert!(!looks_like_a_device("/dev/cu.Bluetooth-Incoming-Port"));
}

#[test]
fn a_connected_light_shows_its_colour() {
    let status = LightStatus {
        connected: true,
        port: Some("/dev/cu.usbmodem1".to_string()),
        mode: Some(Mode::Available),
        message: String::new(),
        follow_timer: false,
        ports: vec![],
    };
    assert_eq!(dot_for(&status), "🟢");
    let unset = LightStatus { mode: None, ..status };
    assert_eq!(dot_for(&unset), "🔵");
}

#[test]
fn a_mode_is_sent_as_its_word_on_a_line() {
    assert_eq!(command_line(Mode::Busy), "BUSY\n");
    assert_eq!(command_line(Mode::Available), "AVAILABLE\n");
}

#[test]
fn an_acknowledgement_is_matched_whatever_its_case() {
    let mut pending = String::new();
    assert!(take_in(&mut pending, "ok busy\r\n", Awaited::Ack(Mode::Busy)));
    assert_eq!(pending, "");
    assert!(!take_in(&mut pending, "OK AVAILABLE\n", Awaited::Ack(Mode::Busy)));
}

#[test]
fn replies_are_read_as_a_stream_across_reads() {
    // PING is answered with PONG and a STATE line nobody asked for.
    let mut pending = String::new();
    assert!(!take_in(&mut pending, "STATE: BUSY\nPO", Awaited::Pong));
    assert_eq!(pending, "PO", "the unfinished line waits for the rest");
    assert!(take_in(&mut pending, "NG\n", Awaited::Pong));
}

#[test]
fn a_booting_board_announces_itself() {
    let mut pending = String::new();
    assert!(take_in(&mut pending, "  READY  \n", Awaited::Banner));
    assert!(take_in(&mut pending, "STATE: OFF\n", Awaited::Banner));
    // The prefix is matched as written.
    assert!(!take_in(&mut pending, "state: off\n", Awaited::Banner));
}

#[test]
fn a_device_spewing_without_newlines_does_not_grow_the_buffer() {
    let mut pending = String::new();
    let noise = "x".repeat(4096);
    assert!(!take_in(&mut pending, &noise, Awaited::Pong));
    assert_eq!(pending.len(), 4096, "at the limit it is still kept");
    assert!(!take_in(&mut pending, "x", Awaited::Pong));
    assert_eq!(pending, "", "past the limit it is dropped");
    // The limit is in bytes: 1366 three-byte characters are past it.
    assert!(!take_in(&mut pending, &"€".repeat(1366), Awaited::Pong));
    assert_eq!(pending, "");
}

#[test]
fn an_explicit_port_is_tried_whatever_it_looks_like() {
    let reported = names(&["/dev/ttyS0", "/dev/cu.usbmodem1"]);
    assert_eq!(candidates(Some("/dev/ttyS0"), reported.clone()), names(&["/dev/ttyS0"]));
    assert_eq!(candidates(None, reported), names(&["/dev/cu.usbmodem1"]));
}

#[test]
fn picking_a_colour_by_hand_stops_the_timer_overriding_it() {
    let settings = LightSettings { port: Some("/dev/cu.usbmodem1".to_string()), follow_timer: true, enabled: true };
    let action = light_action("light-ringing").unwrap();
    assert_eq!(action, LightAction::Show(Mode::Ringing));
    let next = settings_after(action, &settings);
    assert!(!next.follow_timer);
    assert!(next.enabled);
    assert_eq!(next.port.as_deref(), Some("/dev/cu.usbmodem1"));
}

#[test]
fn the_light_menu_toggles_following_and_looks_again_on_request() {
    let settings = LightSettings { port: None, follow_timer: false, enabled: false };
    let toggled = settings_after(light_action("light-follow").unwrap(), &settings);
    assert!(toggled.follow_timer);
    let looking = settings_after(light_action("light-reconnect").unwrap(), &settings);
    assert!(looking.enabled);
    assert!(!lets_go(&settings, &looking));
    assert!(lets_go(&looking, &settings), "switching looking off lets go of the device");
    assert_eq!(light_action("timer-start"), None, "not one of the light's items");
}
