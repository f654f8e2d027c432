use xorcrack::hex::{decode_hex, encode_hex, hex_to_raw, raw_to_hex};
use xorcrack::rank::{best_over_lines, get_top, rank_single_key, top_n, xor1x_and_score, CUTOFF};
use xorcrack::score::humanness;
use xorcrack::settings::{find_switch, get_settings, get_switch_field};
use xorcrack::text::{array_to_string, to_ascii};
use xorcrack::xor::{xor_1_vec, xor_eq_vec};
use xorcrack::XorError;

fn chars(s: &str) -> Vec<char> {
    s.chars().collect()
}

fn args(list: &[&str]) -> Vec<String> {
    list.iter().map(|a| a.to_string()).collect()
}

fn pseudo_random_bytes(state: &mut u64, n: usize) -> Vec<u8> {
    let mut out = Vec::new();
    for _ in 0..n {
        *state = state
            .wrapping_mul(6364136223846793005)
            .wrapping_add(1442695040888963407);
        out.push((*state >> 56) as u8);
    }
    out
}

#[test]
fn pairwise_xor_of_hex_buffers() {
    let a = decode_hex("1c0111001f010100061a024b53535009181c".to_string()).unwrap();
    let b = decode_hex("686974207468652062756c6c277320657965".to_string()).unwrap();
    let x = xor_eq_vec(&a, &b);
    assert_eq!(encode_hex(x), "746865206b696420646f6e277420706c6179");
}

#[test]
fn pairwise_xor_truncates_to_shorter() {
    let a: Vec<u8> = vec![0x0f, 0xf0, 0xaa];
    let b: Vec<u8> = vec![0xff, 0xff];
    assert_eq!(xor_eq_vec(&a, &b), vec![0xf0, 0x0f]);
    assert_eq!(xor_eq_vec(&b, &a), vec![0xf0, 0x0f]);
    assert_eq!(xor_eq_vec(&a, &Vec::new()), Vec::<u8>::new());
}

#[test]
fn pairwise_xor_twice_restores() {
    let a: Vec<u8> = vec![1, 2, 3];
    let b: Vec<u8> = vec![0x55, 0xaa, 0x0f, 0x99];
    assert_eq!(xor_eq_vec(&xor_eq_vec(&a, &b), &b), a);
}

#[test]
fn pairwise_xor_on_wider_integers() {
    let a: Vec<u32> = vec![0xdead_beef, 7];
    let b: Vec<u32> = vec![0xffff_0000, 7];
    assert_eq!(xor_eq_vec(&a, &b), vec![0x2152_beef, 0]);
    let c: Vec<u64> = vec![1, 2];
    assert_eq!(xor_1_vec(&c, 3u64), vec![2, 1]);
}

#[test]
fn single_byte_xor_twice_restores() {
    let a: Vec<u8> = vec![0, 1, 0x7f, 0x80, 0xff];
    let once = xor_1_vec(&a, 0x5a);
    assert_eq!(once, vec![0x5a, 0x5b, 0x25, 0xda, 0xa5]);
    assert_eq!(xor_1_vec(&once, 0x5a), a);
}

#[test]
fn decode_pairs_and_odd_tail() {
    assert_eq!(decode_hex("41".to_string()), Ok(vec![0x41]));
    assert_eq!(decode_hex("4".to_string()), Ok(vec![0x40]));
    assert_eq!(decode_hex("".to_string()), Ok(vec![]));
    assert_eq!(decode_hex("aBcD0f".to_string()), Ok(vec![0xab, 0xcd, 0x0f]));
}

#[test]
fn decode_reports_first_bad_digit() {
    assert_eq!(decode_hex("12zq".to_string()), Err(XorError::InvalidHexDigit('z')));
    assert_eq!(decode_hex("1g".to_string()), Err(XorError::InvalidHexDigit('g')));
    assert_eq!(decode_hex("abc ".to_string()), Err(XorError::InvalidHexDigit(' ')));
}

#[test]
fn encode_is_lowercase_pairs() {
    assert_eq!(encode_hex(vec![0x00, 0x0f, 0xab, 0xff]), "000fabff");
    assert_eq!(encode_hex(vec![]), "");
}

#[test]
fn encode_decode_round_trips() {
    let h = "DeadBEEF0123456789abcdef";
    assert_eq!(encode_hex(decode_hex(h.to_string()).unwrap()), h.to_lowercase());
    let b: Vec<u8> = (0..=255u8).collect();
    assert_eq!(decode_hex(encode_hex(b.clone())), Ok(b));
}

#[test]
fn digits_and_nibbles() {
    assert_eq!(hex_to_raw('0'), Ok(0));
    assert_eq!(hex_to_raw('9'), Ok(9));
    assert_eq!(hex_to_raw('a'), Ok(10));
    assert_eq!(hex_to_raw('F'), Ok(15));
    assert_eq!(hex_to_raw('G'), Err(XorError::InvalidHexDigit('G')));
    assert_eq!(raw_to_hex(0xab), ['a', 'b']);
    assert_eq!(raw_to_hex(0x09), ['0', '9']);
}

#[test]
fn bytes_read_as_text() {
    assert_eq!(to_ascii(vec![0x48, 0x69, 0xff]), vec!['H', 'i', '\u{ff}']);
    assert_eq!(array_to_string(vec!['a', 'b', 'c']), "abc");
    assert_eq!(array_to_string(vec![]), "");
}

#[test]
fn empty_text_scores_zero() {
    assert_eq!(humanness(&Vec::new()), 0);
}

#[test]
fn text_without_letters_scores_zero() {
    assert_eq!(humanness(&chars("123 !?")), 0);
}

#[test]
fn score_exact_values() {
    assert_eq!(humanness(&chars("a")), 52357005);
    assert_eq!(humanness(&chars("a&")), 51857005);
    assert_eq!(humanness(&chars("a\u{ff}")), 27357005);
    assert_eq!(humanness(&chars("Hello, World!")), 52675275);
}

#[test]
fn score_is_deterministic() {
    let t = chars("the quick brown fox");
    assert_eq!(humanness(&t), humanness(&t.clone()));
    assert_eq!(humanness(&t), humanness(&chars("the quick brown fox")));
}

#[test]
fn scoring_a_decryption() {
    let (score, text) = xor1x_and_score(&vec![0x29, 0x28], 0x41);
    assert_eq!(text, vec!['h', 'i']);
    assert_eq!(score, humanness(&chars("hi")));
}

#[test]
fn ranking_has_every_key_in_order() {
    let cipher = decode_hex("1b37373331363f78151b7f2b78".to_string()).unwrap();
    let ranked = rank_single_key(&cipher);
    assert_eq!(ranked.len(), 256);
    for w in ranked.windows(2) {
        assert!(w[0].0 >= w[1].0);
        if w[0].0 == w[1].0 {
            assert!(w[0].1 < w[1].1);
        }
    }
    let mut keys: Vec<u8> = ranked.iter().map(|r| r.1).collect();
    keys.sort();
    assert_eq!(keys, (0..=255u8).collect::<Vec<u8>>());
}

#[test]
fn ranking_finds_single_byte_key() {
    let plain = "Cooking MC's like a pound of bacon";
    let cipher = xor_1_vec(&plain.as_bytes().to_vec(), 0x58);
    let hex = encode_hex(cipher.clone());
    assert_eq!(hex, "1b37373331363f78151b7f2b783431333d78397828372d363c78373e783a393b3736");
    let ranked = rank_single_key(&decode_hex(hex.clone()).unwrap());
    assert_eq!(ranked[0].1, 0x58);
    assert_eq!(ranked[0].2, plain);
    let top = get_top(hex, 3).unwrap();
    assert_eq!(top.len(), 3);
    assert_eq!(top[0].1, 0x58);
    assert_eq!(top[0].2, plain);
}

#[test]
fn top_n_bounds() {
    let cipher: Vec<u8> = vec![1, 2, 3];
    assert_eq!(top_n(&cipher, 0).unwrap().len(), 0);
    assert_eq!(top_n(&cipher, 256).unwrap().len(), 256);
    assert!(matches!(top_n(&cipher, 257), Err(XorError::InsufficientCandidates)));
    assert!(matches!(get_top("0102".to_string(), 300), Err(XorError::InsufficientCandidates)));
    assert!(matches!(get_top("01x2".to_string(), 300), Err(XorError::InvalidHexDigit('x'))));
}

#[test]
fn screening_reports_only_the_genuine_line() {
    let mut state: u64 = 12345;
    let mut lines: Vec<String> = Vec::new();
    for _ in 0..20 {
        lines.push(encode_hex(pseudo_random_bytes(&mut state, 30)));
    }
    let plain = "Now that the party is jumping\n";
    let genuine = encode_hex(xor_1_vec(&plain.as_bytes().to_vec(), 0x35));
    lines.insert(7, genuine.clone());
    lines.push(genuine.clone());
    lines.push(String::new());
    let hits = best_over_lines(&lines).unwrap();
    assert_eq!(hits.len(), 1);
    assert_eq!(hits[0].line, genuine);
    assert_eq!(hits[0].top.len(), 5);
    assert_eq!(hits[0].top[0].1, 0x35);
    assert_eq!(hits[0].top[0].2, plain);
    assert!(hits[0].top[0].0 > CUTOFF);
}

#[test]
fn screening_fails_on_bad_line() {
    let lines = args(&["0a0b", "0c0d", "zz"]);
    assert!(matches!(best_over_lines(&lines), Err(XorError::InvalidHexDigit('z'))));
    assert_eq!(best_over_lines(&Vec::new()).unwrap().len(), 0);
}

#[test]
fn switches_from_arguments() {
    let a = args(&["prog", "-h=1c01", "-exor=6869", "-f1xor"]);
    assert_eq!(find_switch(&a, "-exor"), Some("-exor=6869".to_string()));
    assert_eq!(find_switch(&a, "-f1xc"), None);
    assert_eq!(get_switch_field(&a, "-h"), Some("1c01".to_string()));
    assert_eq!(get_switch_field(&a, "-f1xor"), None);
    let s = get_settings(&a);
    assert!(!s.help);
    assert!(s.input_is_hex);
    assert_eq!(s.hex_string, Some("1c01".to_string()));
    assert!(s.eq_xor);
    assert_eq!(s.eq_hex_comp, Some("6869".to_string()));
    assert!(s.find_1xor);
    assert!(!s.find_1xor_candidates);
    assert_eq!(s.file_path, None);
}

#[test]
fn switch_field_after_first_equals() {
    let a = args(&["-f1xc=dir/a=b.txt", "-?"]);
    assert_eq!(get_switch_field(&a, "-f1xc"), Some("dir/a=b.txt".to_string()));
    assert!(get_settings(&a).help);
    assert!(get_settings(&a).find_1xor_candidates);
}
