use dedup_gui::force_x11;
use dedup_gui::help_content::{help_text, Tab};
use dedup_gui::icon;
use dedup_gui::locks::{LockSet, RepoLocks};
use dedup_gui::menu_entry::{
    data_home, desktop_entry, exec_path, quote_exec, register, stable_brew_path, MARKER,
};
use dedup_gui::repo_chip::{identicon, lock_badge};
use dedup_gui::settings::TooltipVerbosity;
use dedup_gui::status::{
    classify, is_network_fs, mountinfo_is_network, path_has_prefix, unescape_octal, Location,
};
use dedup_gui::text::{
    chars_of, contains_text, decimal, join, lines_of, parse_i32, parse_u32, push_hex2,
    push_hex_padded, same_text, starts_with, string_of, trim,
};
use dedup_gui::theme::{self, is_dark, palette_for, Ink, Palette, Rgb};

#[test]
fn x11_is_forced_only_with_both_displays_and_no_opt_out() {
    assert!(force_x11(true, true, false), "Wayland + XWayland: force X11");
    assert!(!force_x11(true, false, false), "pure Wayland: keep it");
    assert!(!force_x11(false, true, false), "plain X11: nothing to do");
    assert!(!force_x11(true, true, true), "opt-out keeps Wayland");
}

#[test]
fn everything_starts_locked_and_toggles_per_repo() {
    let locks = RepoLocks::new();
    assert!(locks.read_only("photos"), "a fresh session protects all");
    locks.toggle("photos");
    assert!(!locks.read_only("photos"), "unlocked after a toggle");
    assert!(locks.read_only("backup"), "other repos stay protected");
    locks.toggle("photos");
    assert!(locks.read_only("photos"), "a second toggle re-locks");
}

#[test]
fn clones_share_one_registry() {
    let a = RepoLocks::new();
    let b = a.clone();
    b.toggle("photos");
    assert!(
        !a.read_only("photos"),
        "an unlock through one clone shows through every clone — one tab's \
         unlock is the whole app's unlock"
    );
}

#[test]
fn a_lock_set_unlocks_and_locks_again() {
    let mut set = LockSet::new();
    assert!(set.read_only("photos"));
    set.toggle("photos");
    set.toggle("backup");
    assert!(!set.read_only("photos") && !set.read_only("backup"));
    set.toggle("photos");
    assert!(set.read_only("photos") && !set.read_only("backup"));
    assert_ne!(RepoLocks::hover_copy(true), RepoLocks::hover_copy(false));
}

#[test]
fn exec_paths_with_specials_are_quoted() {
    assert_eq!(quote_exec("/opt/brew/bin/dedup"), "/opt/brew/bin/dedup");
    assert_eq!(
        quote_exec("/home/me/My Apps/dedup.AppImage"),
        "\"/home/me/My Apps/dedup.AppImage\""
    );
    assert_eq!(quote_exec("/tmp/a\"b"), "\"/tmp/a\\\"b\"");
    assert_eq!(quote_exec("/tmp/$HOME"), "\"/tmp/\\$HOME\"");
}

#[test]
fn fresh_register_writes_icon_and_marked_launcher() {
    let icon = [1u8, 2, 3];
    let plan = register(&icon, None, None, "/opt/brew/bin/dedup");
    assert!(plan.write_icon);
    let desktop = plan.launcher.expect("launcher written");
    assert!(desktop.contains("Exec=/opt/brew/bin/dedup"));
    assert!(desktop.contains("TryExec=/opt/brew/bin/dedup"));
    assert!(desktop.contains(MARKER));
    assert!(desktop.contains("StartupWMClass=dedup"));
    assert_eq!(
        desktop,
        "[Desktop Entry]\nType=Application\nName=dedup\nGenericName=Deduplication Triage\n\
         Comment=Manage your (media) files\nTryExec=/opt/brew/bin/dedup\n\
         Exec=/opt/brew/bin/dedup\nIcon=dedup\nTerminal=false\nCategories=Utility;FileTools;\n\
         StartupWMClass=dedup\nX-Dedup-Managed=true\n"
    );
}

#[test]
fn second_register_is_a_no_op() {
    let icon = [1u8, 2, 3];
    let exec = "/usr/local/bin/dedup";
    let first = register(&icon, None, None, exec);
    let written = first.launcher.expect("first");
    let second = register(&icon, Some(&icon), Some(&written), exec);
    assert!(!second.write_icon, "identical content is not rewritten");
    assert!(second.launcher.is_none(), "identical content is not rewritten");
}

#[test]
fn moved_binary_updates_the_launcher() {
    let icon = [1u8, 2, 3];
    let old = register(&icon, None, None, "/old/dedup").launcher.expect("first");
    let desktop = register(&icon, Some(&icon), Some(&old), "/new/dedup").launcher.expect("moved");
    assert!(desktop.contains("Exec=/new/dedup"));
    assert_eq!(desktop, desktop_entry("/new/dedup"));
}

#[test]
fn foreign_launcher_is_left_alone() {
    let icon = [1u8, 2, 3];
    let foreign = "[Desktop Entry]\nName=my dedup\nExec=/home/me/custom\n";
    let plan = register(&icon, Some(&[9]), Some(foreign), "/opt/dedup");
    assert!(plan.write_icon, "a stale icon is refreshed");
    assert!(
        plan.launcher.is_none(),
        "a launcher without our marker is never overwritten"
    );
}

#[test]
fn the_data_home_is_the_configured_one_or_below_home() {
    let s = |t: &str| Some(t.to_string());
    assert_eq!(data_home(s("/data"), s("/home/me")), s("/data"));
    assert_eq!(data_home(s(""), s("/home/me")), s("/home/me/.local/share"));
    assert_eq!(data_home(None, s("/home/me/")), s("/home/me/.local/share"));
    assert_eq!(data_home(None, s("")), s(".local/share"));
    assert_eq!(data_home(None, None), None);
}

#[test]
fn an_appimage_or_a_stable_link_is_registered() {
    let s = |t: &str| Some(t.to_string());
    assert_eq!(exec_path(s("/a.AppImage"), s("/bin/dedup"), None), s("/a.AppImage"));
    assert_eq!(exec_path(s(""), s("/bin/dedup"), None), s("/bin/dedup"));
    assert_eq!(exec_path(None, s("/c/dedup"), s("/brew/bin/dedup")), s("/brew/bin/dedup"));
    assert_eq!(exec_path(None, None, s("/brew/bin/dedup")), None);
}

#[test]
fn a_cellar_binary_maps_to_the_prefix_bin() {
    let parts = |p: &[&str]| p.iter().map(|s| s.to_string()).collect::<Vec<_>>();
    let exe = parts(&["opt", "brew", "Cellar", "dedup", "0.3.0", "bin", "dedup"]);
    assert_eq!(stable_brew_path(&exe), Some(parts(&["opt", "brew", "bin", "dedup"])));
    assert_eq!(stable_brew_path(&parts(&["usr", "local", "bin", "dedup"])), None);
}

const MOUNTINFO: &str = "\
21 30 0:20 / /proc rw - proc proc rw
30 0 8:2 / / rw - ext4 /dev/sda2 rw
40 30 0:40 / /mnt/nas rw - nfs4 server:/export rw
41 30 0:41 / /mnt/usb rw - vfat /dev/sdb1 rw
42 40 0:42 / /mnt/nas/deep rw - cifs //srv/share rw";

#[test]
fn local_path_is_not_network() {
    assert!(!mountinfo_is_network(MOUNTINFO, "/home/user/photos"));
}

#[test]
fn network_mount_is_detected() {
    assert!(mountinfo_is_network(MOUNTINFO, "/mnt/nas/albums"));
}

#[test]
fn longest_prefix_wins() {
    // /mnt/nas/deep is cifs even though /mnt/nas (nfs4) is also a prefix.
    assert!(mountinfo_is_network(MOUNTINFO, "/mnt/nas/deep/x"));
    // A vfat USB stick is not network.
    assert!(!mountinfo_is_network(MOUNTINFO, "/mnt/usb/dcim"));
}

#[test]
fn octal_escapes_are_decoded() {
    assert_eq!(unescape_octal(r"/mnt/my\040nas"), "/mnt/my nas");
    assert_eq!(unescape_octal("/plain/path"), "/plain/path");
}

#[test]
fn prefix_matching_respects_boundaries() {
    assert!(path_has_prefix("/mnt/nas/x", "/mnt/nas"));
    assert!(path_has_prefix("/mnt/nas", "/mnt/nas"));
    // Not a real ancestor: /mnt/nastier must not match /mnt/nas.
    assert!(!path_has_prefix("/mnt/nastier/x", "/mnt/nas"));
    assert!(path_has_prefix("/anything", "/"));
}

#[test]
fn a_local_disk_mounted_deeper_hides_the_network_mount() {
    let info = "1 0 0:1 / /mnt rw - nfs server:/x rw\n2 1 8:1 / /mnt/disk rw - ext4 /dev/sda rw";
    assert!(mountinfo_is_network(info, "/mnt/share"));
    assert!(!mountinfo_is_network(info, "/mnt/disk/photos"));
    assert!(!mountinfo_is_network("", "/mnt"));
}

#[test]
fn a_location_says_whether_it_can_be_reached() {
    assert_eq!(classify(false, true), Location::Local);
    assert_eq!(classify(true, true), Location::Remote);
    assert_eq!(classify(true, false), Location::Offline);
    assert_eq!(classify(false, false), Location::Missing);
    assert!(Location::Remote.reachable() && Location::Local.reachable());
    assert!(!Location::Offline.reachable() && !Location::Missing.reachable());
    assert!(is_network_fs("nfs4") && !is_network_fs("ext4"));
}

#[test]
fn identicon_is_deterministic_and_distinct() {
    // Same name → identical hue + cell bits.
    assert_eq!(theme::name_hash("Photos"), theme::name_hash("Photos"));
    // Distinct names → distinct hashes (hence distinct glyphs) for a
    // handful of realistic repo names.
    let names = ["Photos", "Videos", "Archive", "Automatic Upload", "data"];
    for (i, a) in names.iter().enumerate() {
        for b in &names[i + 1..] {
            assert_ne!(
                theme::name_hash(a),
                theme::name_hash(b),
                "identicon hash collision between {a} and {b}"
            );
        }
    }
}

#[test]
fn an_identicon_is_the_same_on_both_halves() {
    let id = identicon("Photos");
    assert!(id.hue < 360);
    for (col, row) in &id.cells {
        assert!(id.cells.contains(&(4 - col, *row)), "{col},{row}");
    }
    assert_eq!(theme::name_hash(""), 0x811c_9dc5, "the hash of nothing is its starting value");
    let (locked, _, _) = lock_badge(true);
    let (open, _, _) = lock_badge(false);
    assert_eq!(locked, icon::LOCK);
    assert_eq!(open, icon::LOCK_OPEN);
}

fn perceptual_distance(a: Rgb, b: Rgb) -> f32 {
    let rmean = (a.r as f32 + b.r as f32) / 2.0;
    let dr = a.r as f32 - b.r as f32;
    let dg = a.g as f32 - b.g as f32;
    let db = a.b as f32 - b.b as f32;
    ((2.0 + rmean / 256.0) * dr * dr + 4.0 * dg * dg + (2.0 + (255.0 - rmean) / 256.0) * db * db)
        .sqrt()
}

#[test]
fn the_semantic_colours_stay_distinct_in_every_palette() {
    // Redmean ~40 is a conservative "clearly different on screen" floor.
    const MIN: f32 = 40.0;
    for (name, p) in [("dark", Palette::dark()), ("light", Palette::light())] {
        let semantics = [
            ("grey", p.grey),
            ("green", p.green),
            ("red", p.red),
            ("amber", p.amber),
            ("blue", p.blue),
        ];
        for i in 0..semantics.len() {
            for j in (i + 1)..semantics.len() {
                let d = perceptual_distance(semantics[i].1, semantics[j].1);
                assert!(
                    d >= MIN,
                    "{name}: {} and {} are too close ({d:.0} < {MIN})",
                    semantics[i].0,
                    semantics[j].0
                );
            }
        }
    }
}

#[test]
fn every_accessor_reads_the_dark_palettes_value() {
    let p = Palette::dark();
    let rgb = |r: u8, g: u8, b: u8| Rgb { r, g, b };
    assert_eq!(p.ink(Ink::Black), rgb(0x00, 0x00, 0x00));
    assert_eq!(p.ink(Ink::Background), rgb(0x00, 0x00, 0x00));
    assert_eq!(p.ink(Ink::Orange), rgb(0xFF, 0x99, 0x00));
    assert_eq!(p.ink(Ink::Amber), rgb(0xFF, 0xCC, 0x66));
    assert_eq!(p.ink(Ink::Tan), rgb(0xFF, 0xCC, 0x99));
    assert_eq!(p.ink(Ink::Lilac), rgb(0xCC, 0x99, 0xFF));
    assert_eq!(p.ink(Ink::Blue), rgb(0x66, 0x99, 0xFF));
    assert_eq!(p.ink(Ink::Red), rgb(0xE0, 0x66, 0x55));
    assert_eq!(p.ink(Ink::Green), rgb(0x66, 0xCC, 0x77));
    assert_eq!(p.ink(Ink::Grey), rgb(0x8A, 0x82, 0x74));
    assert_eq!(p.ink(Ink::Text), rgb(0xEB, 0xD0, 0xA0));
    assert_eq!(p.ink(Ink::Panel), rgb(0x0A, 0x08, 0x0C));
    assert_eq!(p.ink(Ink::Hairline), rgb(0x5C, 0x4E, 0x40));
}

#[test]
fn each_theme_has_its_palette() {
    assert_eq!(palette_for(true), Palette::dark());
    assert_eq!(palette_for(false), Palette::light());
    assert!(is_dark(&Palette::dark()) && !is_dark(&Palette::light()));
}

#[test]
fn settings_start_short_and_every_tab_has_help() {
    assert_eq!(TooltipVerbosity::default(), TooltipVerbosity::Short);
    for tab in [Tab::Repositories, Tab::Duplicates, Tab::Transfer, Tab::Grooming, Tab::Browse] {
        assert!(!help_text(tab).is_empty());
    }
    assert!(help_text(Tab::Grooming).starts_with("Prune and reorganize"));
}

#[test]
fn text_helpers_work_on_characters() {
    assert_eq!(trim("  a b\t\n"), "a b");
    assert_eq!(lines_of("a\r\nb\n"), vec!["a", "b"]);
    assert_eq!(lines_of(""), Vec::<String>::new());
    assert_eq!(decimal(0), "0");
    assert_eq!(decimal(1_234_567), "1234567");
    assert!(same_text("é", "é") && !same_text("e", "é"));
    assert!(starts_with("image/png", "image/") && !starts_with("im", "image/"));
    assert!(contains_text("abcabd", "abd") && !contains_text("abc", "x"));
    assert_eq!(join(&vec!["a".to_string(), "b".to_string()], ", "), "a, b");
    assert_eq!(string_of(&chars_of("héllo"), 1, 4), "éll");
    let mut hex = String::new();
    push_hex_padded(&mut hex, 0x1f, 8);
    push_hex2(&mut hex, 0x0a);
    assert_eq!(hex, "0000001f0a");
    assert_eq!(parse_u32("+7"), Some(7));
    assert_eq!(parse_u32("-7"), None);
    assert_eq!(parse_u32("4294967296"), None);
    assert_eq!(parse_i32("-2147483648"), Some(i32::MIN));
    assert_eq!(parse_i32("2147483648"), None);
    assert_eq!(parse_i32(""), None);
}

#[test]
fn only_octal_escapes_are_replaced() {
    assert_eq!(unescape_octal(r"/mnt/é\040x"), "/mnt/é x");
    assert_eq!(unescape_octal(r"/mnt/a\134b\011c"), "/mnt/a\\b\tc");
    assert_eq!(unescape_octal(r"/mnt/\+40"), r"/mnt/\+40", "a sign is no digit");
    assert_eq!(unescape_octal(r"/mnt/\400\04"), r"/mnt/\400\04", "too large, too short");
    let table = "40 30 0:40 / /mnt/é\\040x rw - nfs4 server:/export rw\n";
    assert!(mountinfo_is_network(table, "/mnt/é x/deep"));
}
