use pitchfork::terminal::{
    colored_id_label, dimmed_id, fnv1a_of, hash_of, keep_styles, strip_pty_controls, PtyEvent,
};

#[test]
fn fnv1a_has_its_known_values() {
    assert_eq!(fnv1a_of(""), 0x811c9dc5);
    assert_eq!(fnv1a_of("a"), 0xe40c292c);
    assert_eq!(fnv1a_of("foobar"), 0xbf9cf968);
}

#[test]
fn stripping_twice_changes_nothing() {
    let wild = "a\x1b[2J\x1b[1;38:5:9mred\x1b[m\tb\r\n\x1b]0;title\x07\u{85}c\x1b[?25l\u{7f}";
    let once = strip_pty_controls(wild);
    assert_eq!(once, "a\x1b[1;38:5:9mred\x1b[0m\tb\nc\u{7f}");
    assert_eq!(strip_pty_controls(&once), once);
    let many: Vec<String> = (1..50).map(|n| n.to_string()).collect();
    let long = strip_pty_controls(&format!("\x1b[{}m", many.join(";")));
    assert_eq!(long, format!("\x1b[{}m", many[..32].join(";")));
    assert_eq!(strip_pty_controls(&long), long);
    let plain = "plain text \u{e9}\u{1f980} [1m";
    assert_eq!(strip_pty_controls(plain), plain);
}

#[test]
fn labels_have_a_color_of_their_own() {
    assert_eq!(colored_id_label("a/x", false), "[a/x]");
    let basis: usize = 0x811c_9dc5;
    let prime: usize = 0x0100_0193;
    let hash = basis.wrapping_mul(prime).wrapping_add(b'a' as usize);
    assert_eq!(hash_of("a"), hash);
    let code = [34, 35, 36, 32][hash % 4];
    assert_eq!(colored_id_label("a", true), format!("\x1b[{code}m[a]\x1b[0m"));
}

#[test]
fn dimmed_ids_have_a_color_of_their_own() {
    assert_eq!(dimmed_id("a/x", false), "a/x");
    let colors = [
        "180;120;120",
        "180;160;100",
        "120;180;120",
        "120;180;180",
        "180;120;180",
        "120;160;180",
    ];
    let color = colors[0xe40c292cusize % 6];
    assert_eq!(dimmed_id("a", true), format!("\x1b[2;38;2;{color}ma\x1b[0m"));
    assert_eq!(dimmed_id("a/x", true), dimmed_id("a/x", true));
}

#[test]
fn colors_stay_and_cursor_moves_go() {
    assert_eq!(
        strip_pty_controls("\x1b[2J\x1b[1;31mred\x1b[0m\r\x07 a\tb\nc\x1b]0;title\x07"),
        "\x1b[1;31mred\x1b[0m a\tb\nc"
    );
    assert_eq!(strip_pty_controls("plain \u{e9}"), "plain \u{e9}");
    assert_eq!(strip_pty_controls("\x1b[38:2:1:2:3mx"), "\x1b[38:2:1:2:3mx");
    assert_eq!(strip_pty_controls(""), "");
}

#[test]
fn events_are_kept_or_dropped() {
    let events = vec![
        PtyEvent::Print('a'),
        PtyEvent::Execute(10),
        PtyEvent::Execute(13),
        PtyEvent::Csi {
            params: vec![vec![4, 3], vec![31]],
            action: 'm',
        },
        PtyEvent::Csi {
            params: vec![vec![2]],
            action: 'J',
        },
        PtyEvent::Other,
        PtyEvent::Execute(9),
    ];
    assert_eq!(keep_styles(&events), "a\n\x1b[4:3;31m\t");
}
