use sysinfo::hwmon::{SensorFile, SensorFiles};
use sysinfo::layout::{join_list, pad_left, pad_right, push_repeated};
use sysinfo::names::{arrange, sensor_sort_key, sort, AnyName, Order};
use sysinfo::number::{parse_or_zero, parse_u32, parse_u64, show};
use sysinfo::table::NameTable;
use sysinfo::text::{
    cut_prefix, cut_suffixes, ends_with, find_text, has_class, has_text, is_all_digits, line_with,
    owned, same, split_char, split_first, split_last, split_lines, split_words, starts_with, trim,
    trim_class, CharClass,
};
use sysinfo::ui::Outside;

fn strings(list: &[&str]) -> Vec<String> {
    list.iter().map(|s| s.to_string()).collect()
}

#[test]
fn white_space_is_that_of_unicode() {
    let mut code: u32 = 0;
    while code < 0x11000 {
        if let Some(c) = char::from_u32(code) {
            assert_eq!(has_class(c, CharClass::Space), c.is_whitespace(), "{code:x}");
            assert_eq!(has_class(c, CharClass::Digit), c.is_ascii_digit(), "{code:x}");
        }
        code += 1;
    }
}

#[test]
fn copies_keep_every_character() {
    assert_eq!(owned(""), "");
    assert_eq!(owned("°C — ░█"), "°C — ░█");
}

#[test]
fn strings_are_compared_by_their_characters() {
    assert!(same("", ""));
    assert!(same("zram0", "zram0"));
    assert!(!same("zram0", "zram1"));
    assert!(!same("zram", "zram0"));
}

#[test]
fn trimming_agrees_with_the_standard_library() {
    for s in ["", " ", "\t\n", " a ", "a", "\u{a0}x y\u{3000}\r\n", "x\u{200b} "] {
        assert_eq!(trim(s), s.trim());
    }
    assert_eq!(trim_class("\"\"Arch \"Linux\"\"", CharClass::Quote), "Arch \"Linux");
    assert_eq!(trim_class("[lzo-rle]", CharClass::Bracket), "lzo-rle");
    assert_eq!(trim_class("[]", CharClass::Bracket), "");
}

#[test]
fn trimming_twice_is_trimming_once() {
    let once = trim("  a b\t");
    assert_eq!(once, "a b");
    assert_eq!(trim(&once), once);
}

#[test]
fn words_agree_with_the_standard_library() {
    for s in ["", "  ", "one", " one  two\tthree\n", "a\u{2003}b", "cpu  1 2 3 "] {
        let expected: Vec<&str> = s.split_whitespace().collect();
        assert_eq!(split_words(s), expected);
    }
}

#[test]
fn lines_agree_with_the_standard_library() {
    for s in ["", "\n", "a", "a\n", "a\n\nb", "a\r\nb\r", "\r\n", "a\rb\nc"] {
        let expected: Vec<&str> = s.lines().collect();
        assert_eq!(split_lines(s), expected);
    }
}

#[test]
fn fields_agree_with_the_standard_library() {
    for s in ["", ":", "a:b", "a:b:c", "::", "none"] {
        let expected: Vec<&str> = s.split(':').collect();
        assert_eq!(split_char(s, ':'), expected);
        let once = s.split_once(':').map(|(a, b)| (a.to_string(), b.to_string()));
        assert_eq!(split_first(s, ':'), once);
        let last = s.rsplit_once(':').map(|(_, b)| b.to_string());
        assert_eq!(split_last(s, ':'), last);
    }
}

#[test]
fn prefixes_and_suffixes() {
    assert!(starts_with("temp1_input", "temp"));
    assert!(starts_with("temp", ""));
    assert!(!starts_with("tem", "temp"));
    assert!(ends_with("temp1_input", "_input"));
    assert!(!ends_with("input", "_input"));
    assert_eq!(cut_prefix("card10", "card"), Some("10".to_string()));
    assert_eq!(cut_prefix("renderD128", "card"), None);
    assert_eq!(cut_suffixes("a_input_input", "_input"), "a");
    assert_eq!(cut_suffixes("_input", "_input"), "");
    assert_eq!(cut_suffixes("power1", "_input"), "power1");
}

#[test]
fn searching() {
    assert_eq!(find_text("* 2412 MHz [1]", "MHz"), Some(7));
    assert_eq!(find_text("MHz MHz", "MHz"), Some(0));
    assert_eq!(find_text("MH", "MHz"), None);
    assert_eq!(find_text("°MHz", "MHz"), Some(1));
    assert!(has_text("VHT Capabilities", "HT Capabilities"));
    assert!(!has_text("HT capabilities", "HT Capabilities"));
    assert_eq!(line_with("a: 1\nb: 2\nb: 3", "b"), Some("b: 2".to_string()));
    assert_eq!(line_with("a: 1", "b"), None);
}

#[test]
fn digits_only() {
    assert!(is_all_digits(""));
    assert!(is_all_digits("0123"));
    assert!(!is_all_digits("12a"));
    assert!(!is_all_digits("١"));
}

#[test]
fn numbers_agree_with_the_standard_library() {
    let samples = [
        "", "0", "+0", "+", "-1", "007", "42", " 42", "4 2", "18446744073709551615",
        "18446744073709551616", "4294967295", "4294967296", "99999999999999999999999", "1e3",
        "+12",
    ];
    for s in samples {
        assert_eq!(parse_u64(s), s.parse::<u64>().ok(), "{s}");
        assert_eq!(parse_u32(s), s.parse::<u32>().ok(), "{s}");
        assert_eq!(parse_or_zero(s), s.parse::<u64>().unwrap_or(0), "{s}");
    }
}

#[test]
fn a_printed_number_reads_back() {
    for n in [0, 7, 10, 99, 100, 86400, u64::MAX] {
        assert_eq!(show(n), format!("{n}"));
        assert_eq!(parse_u64(&show(n)), Some(n));
    }
}

#[test]
fn columns() {
    assert_eq!(pad_right("VRAM", 14), format!("{:<14}", "VRAM"));
    assert_eq!(pad_right("°C", 4), format!("{:<4}", "°C"));
    assert_eq!(pad_right("longer than that", 4), "longer than that");
    assert_eq!(pad_left("7", 2), " 7");
    assert_eq!(pad_left("107", 2), "107");
    let mut s = String::from("[");
    push_repeated(&mut s, '█', 3);
    assert_eq!(s, "[███");
}

#[test]
fn joining() {
    assert_eq!(join_list(&strings(&[]), ", "), "");
    assert_eq!(join_list(&strings(&["2.4 GHz"]), ", "), "2.4 GHz");
    assert_eq!(join_list(&strings(&["2.4 GHz", "5 GHz", "6 GHz"]), ", "), "2.4 GHz, 5 GHz, 6 GHz");
}

#[test]
fn sensor_keys() {
    assert_eq!(sensor_sort_key("temp10_input"), ("temp".to_string(), 10));
    assert_eq!(sensor_sort_key("in0_input"), ("in".to_string(), 0));
    assert_eq!(sensor_sort_key("hwmon3"), ("hwmon".to_string(), 3));
    assert_eq!(sensor_sort_key("name"), ("name".to_string(), 0));
    assert_eq!(sensor_sort_key("fan2a_input"), ("fan".to_string(), 0));
    assert_eq!(sensor_sort_key("temp4294967296_x"), ("temp".to_string(), 0));
    assert_eq!(sensor_sort_key("_input"), ("".to_string(), 0));
    assert_eq!(sensor_sort_key(""), ("".to_string(), 0));
}

#[test]
fn names_sort_by_code_points() {
    let names = strings(&["card1", "card10", "card0", "card", "écran", "Card"]);
    let mut expected = names.clone();
    expected.sort();
    assert_eq!(sort(&names, &AnyName, Order::Name), expected);
}

#[test]
fn sensors_sort_by_number_and_stay_in_order_otherwise() {
    let names = strings(&["temp10_input", "power1_average", "temp2_input", "power1_input", "fan1_input"]);
    assert_eq!(
        sort(&names, &AnyName, Order::Sensor),
        strings(&["fan1_input", "power1_average", "power1_input", "temp2_input", "temp10_input"])
    );
}

#[test]
fn averages_stand_behind_the_other_files_of_their_sensor() {
    let names = strings(&["power1_average", "temp1_input", "power2_input", "power1_input"]);
    assert_eq!(
        sort(&names, &AnyName, Order::File),
        strings(&["power1_input", "power1_average", "power2_input", "temp1_input"])
    );
}

#[test]
fn sorting_loses_nothing() {
    let names = strings(&["b", "a", "b", "c", "a"]);
    assert_eq!(sort(&names, &AnyName, Order::Name), strings(&["a", "a", "b", "b", "c"]));
}

#[test]
fn names_that_pass_a_test() {
    let names = strings(&["eth0", "lo", "wlan0", "br0", "lo"]);
    assert_eq!(sort(&names, &Outside, Order::Sensor), strings(&["br0", "eth0", "wlan0"]));
}

#[test]
fn things_are_arranged_by_name() {
    let files: Vec<SensorFile> = ["temp10_input", "name", "temp9_input", "fan1_input"]
        .iter()
        .map(|n| SensorFile { file: n.to_string(), reading: None, label: None })
        .collect();
    assert_eq!(arrange(&files, &SensorFiles, Order::Sensor), vec![3, 2, 0]);
    assert_eq!(arrange(&files, &SensorFiles, Order::Name), vec![3, 0, 2]);
    let twice = vec![
        SensorFile { file: "b_input".to_string(), reading: None, label: None },
        SensorFile { file: "a_input".to_string(), reading: None, label: None },
        SensorFile { file: "b_input".to_string(), reading: None, label: None },
    ];
    assert_eq!(arrange(&twice, &SensorFiles, Order::File), vec![1, 0, 2]);
}

#[test]
fn a_table_has_one_row_for_each_name() {
    let mut table: NameTable<String> = NameTable::new();
    assert_eq!(table.get("eth0"), None);
    table.insert("eth0".to_string(), "10.0.0.2/24".to_string());
    table.insert("lo".to_string(), "127.0.0.1/8".to_string());
    table.insert("eth0".to_string(), "10.0.0.3/24".to_string());
    assert_eq!(table.get("eth0"), Some(&"10.0.0.3/24".to_string()));
    assert_eq!(table.get("lo"), Some(&"127.0.0.1/8".to_string()));
    assert_eq!(table.get("wlan0"), None);
    assert_eq!(sort(&table.names(), &AnyName, Order::Name), strings(&["eth0", "lo"]));
}
