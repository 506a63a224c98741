use downup::utils::{calc_speed, fmt_bytes, fmt_size, fmt_speed, Command, CLEAR_PREV_LINE, CLEAR_SCREEN};

#[test]
fn command_bytes_are_the_ascii_control_characters() {
    assert_eq!(Command::Upload.to_byte(), 0x02);
    assert_eq!(Command::Download.to_byte(), 0x03);
    assert_eq!(Command::Finish.to_byte(), 0x04);
}

#[test]
fn command_bytes_read_back() {
    for c in [Command::Upload, Command::Download, Command::Finish] {
        assert_eq!(Command::from_byte(c.to_byte()), Some(c));
    }
    assert_eq!(Command::from_byte(0x00), None);
    assert_eq!(Command::from_byte(0x41), None);
    assert_eq!(Command::from_byte(0x05), None);
}

#[test]
fn small_sizes_are_plain_bytes() {
    assert_eq!(fmt_bytes(0), "0 B");
    assert_eq!(fmt_bytes(215), "215 B");
    assert_eq!(fmt_bytes(1023), "1023 B");
}

#[test]
fn large_sizes_use_binary_units() {
    assert_eq!(fmt_bytes(1024), "1.0 kiB");
    assert_eq!(fmt_bytes(1_048_576), "1.0 MiB");
    assert_eq!(fmt_bytes(512_000), "500.0 kiB");
}

#[test]
fn speed_is_bytes_per_second() {
    assert_eq!(fmt_speed(1000, 1_000_000_000), "1000 B/s");
    assert_eq!(fmt_speed(100, 500_000_000), "200 B/s");
    assert_eq!(fmt_speed(2048, 1_000_000_000), "2.0 kiB/s");
    assert_eq!(fmt_speed(1, 3_000_000_000), "0 B/s");
}

#[test]
fn calc_speed_rounds_down() {
    assert_eq!(calc_speed(1000, 2_000_000_000), 500);
    assert_eq!(calc_speed(10, 3_000_000_000), 3);
    assert_eq!(calc_speed(7, 1), 7_000_000_000);
}

#[test]
fn terminal_controls() {
    assert_eq!(CLEAR_SCREEN, "\x1B[2J\x1B[1;1H");
    assert_eq!(CLEAR_PREV_LINE, "\x1b[0F\x1b[2K");
}

#[test]
fn decimal_sizes_as_bytesize_displays_them() {
    assert_eq!(fmt_size(999), "999 B");
    assert_eq!(fmt_size(1000), "1.0 KB");
    assert_eq!(fmt_size(1_048_576), "1048.6 KB");
    assert_eq!(fmt_size(1_000_000_000), "1000.0 MB");
}
