use zerosh::number::{decimal_text, integer_text, parse_i32, parse_usize};
use zerosh::parse::{parse_cmd, parse_cmd_one, parse_pipe, ParseError};
use zerosh::text::{is_white_space, trim};

#[test]
fn test_parse_cmd() {
    let line = "echo hello | less";
    let expected = vec![("echo", vec!["hello"]), ("less", vec![])];
    assert_eq!(parse_cmd(line).unwrap(), expected);
}

#[test]
fn splits_at_pipes() {
    assert_eq!(parse_pipe(""), vec![""]);
    assert_eq!(parse_pipe("ls -l"), vec!["ls -l"]);
    assert_eq!(parse_pipe("a|b||"), vec!["a", "b", "", ""]);
    assert_eq!(parse_pipe("日本 | 語"), vec!["日本 ", " 語"]);
}

#[test]
fn pieces_rejoin() {
    for line in ["", "|", "a|b", " a | b ||", "猫|犬"] {
        assert_eq!(parse_pipe(line).join("|"), line);
    }
}

#[test]
fn reads_one_program() {
    assert_eq!(parse_cmd_one("  ls \t -l\u{3000}a  "), Ok(("ls", vec!["-l", "a"])));
    assert_eq!(parse_cmd_one("ls"), Ok(("ls", vec![])));
    assert_eq!(parse_cmd_one(" \t\n"), Err(ParseError::EmptyCommand));
    assert_eq!(parse_cmd_one(""), Err(ParseError::EmptyCommand));
}

#[test]
fn refuses_a_missing_program() {
    for line in ["", "   ", "|", "ls |", "| ls", "a | | b"] {
        assert_eq!(parse_cmd(line), Err(ParseError::EmptyCommand));
    }
    assert_eq!(ParseError::EmptyCommand.message(), "空のコマンド");
}

#[test]
fn reads_a_pipe_of_three() {
    let expected = vec![("a", vec!["1"]), ("b", vec!["2", "3"]), ("c", vec![])];
    assert_eq!(parse_cmd("a 1|b 2 3|c"), Ok(expected));
}

#[test]
fn words_are_those_of_std() {
    for line in ["", " ", "a b", "\u{85}x\u{a0}y\u{2003}z\u{200b}", "  echo\tさん  "] {
        let expected: Vec<&str> = line.split_whitespace().collect();
        match parse_cmd_one(line) {
            Ok((name, args)) => {
                assert_eq!(name, expected[0]);
                assert_eq!(args, expected[1..].to_vec());
            }
            Err(_) => assert!(expected.is_empty()),
        }
    }
}

#[test]
fn white_space_is_that_of_std() {
    for n in 0..=0x10ffffu32 {
        if let Some(c) = char::from_u32(n) {
            assert_eq!(is_white_space(c), c.is_whitespace());
        }
    }
}

#[test]
fn trims_as_std_does() {
    for line in ["", "  ", "a", " a b\n", "\u{3000}日本 語\u{a0}", "\t\tx"] {
        assert_eq!(trim(line), line.trim());
    }
}

#[test]
fn reads_numbers_as_std_does() {
    let texts = [
        "", "0", "+0", "-0", "7", "+7", "-7", "007", "+", "-", "+-1", "-+1", " 1", "1 ", "1_0",
        "0x1", "１", "12a", "2147483647", "2147483648", "-2147483648", "-2147483649",
        "18446744073709551615", "18446744073709551616", "99999999999999999999999999999",
        "00000000000000000000000000000001",
    ];
    for text in texts {
        assert_eq!(parse_i32(text), text.parse::<i32>().ok());
        assert_eq!(parse_usize(text), text.parse::<usize>().ok());
    }
}

#[test]
fn writes_numbers_as_std_does() {
    for n in [0u64, 1, 9, 10, 11, 99, 100, 12345, u64::MAX] {
        assert_eq!(decimal_text(n), n.to_string());
    }
    for n in [0i32, 5, -5, 10, -10, i32::MAX, i32::MIN] {
        assert_eq!(integer_text(n), n.to_string());
    }
}

#[test]
fn shown_numbers_are_read_back() {
    for n in [0usize, 1, 10, 4096, usize::MAX] {
        assert_eq!(parse_usize(&decimal_text(n as u64)), Some(n));
    }
}

#[test]
fn written_commands_are_read_back() {
    let cmd = vec![("ls", vec!["-l", "a"]), ("sort", vec![]), ("猫", vec!["x"])];
    let parts: Vec<String> = cmd
        .iter()
        .map(|(name, args)| {
            let mut all = vec![*name];
            all.extend(args.iter());
            all.join(" ")
        })
        .collect();
    assert_eq!(parse_cmd(&parts.join("|")), Ok(cmd));
}

#[test]
fn words_keep_every_other_character() {
    let line = "\tab  c\u{3000}d ";
    let (name, args) = parse_cmd_one(line).unwrap();
    let kept: String = line.chars().filter(|c| !c.is_whitespace()).collect();
    assert_eq!(format!("{}{}", name, args.concat()), kept);
}

#[test]
fn white_space_around_programs_does_not_matter() {
    let plain = parse_cmd("ls -l|sort").unwrap();
    assert_eq!(parse_cmd("ls -l | sort").unwrap(), plain);
    assert_eq!(parse_cmd("\t ls  \u{3000} -l|\t\tsort \n").unwrap(), plain);
}

#[test]
fn pipes_are_read_side_by_side() {
    let mut both = parse_cmd("a x | b").unwrap();
    both.extend(parse_cmd("c").unwrap());
    assert_eq!(parse_cmd("a x | b|c").unwrap(), both);
    assert!(parse_cmd("a x | b|").is_err());
    assert!(parse_cmd("| c").is_err());
}

#[test]
fn spaced_commands_are_read_back() {
    let cmd = vec![("echo", vec!["a", "b"]), ("less", vec![]), ("wc", vec!["-l"])];
    assert_eq!(parse_cmd("echo a b | less | wc -l"), Ok(cmd));
}
