use figfont::text::{read_signed, read_unsigned, row_content, split_bytes, split_lines};

fn lines_of(text: &str) -> Vec<Vec<u8>> {
    text.lines().map(|l| l.as_bytes().to_vec()).collect()
}

#[test]
fn split_bytes_keeps_empty_pieces() {
    assert_eq!(split_bytes(b"a b", b' '), vec![b"a".to_vec(), b"b".to_vec()]);
    assert_eq!(split_bytes(b"", b' '), vec![Vec::<u8>::new()]);
    assert_eq!(split_bytes(b" ", b' '), vec![Vec::<u8>::new(), Vec::<u8>::new()]);
    assert_eq!(
        split_bytes(b"a  b ", b' '),
        vec![b"a".to_vec(), Vec::new(), b"b".to_vec(), Vec::new()]
    );
    assert_eq!(split_bytes(b"abc", b' '), vec![b"abc".to_vec()]);
}

#[test]
fn split_lines_ends_lines_at_newlines() {
    assert_eq!(split_lines(b"a\nb"), vec![b"a".to_vec(), b"b".to_vec()]);
    assert_eq!(split_lines(b"a\nb\n"), vec![b"a".to_vec(), b"b".to_vec()]);
    assert_eq!(split_lines(b""), Vec::<Vec<u8>>::new());
    assert_eq!(split_lines(b"\n"), vec![Vec::<u8>::new()]);
    assert_eq!(split_lines(b"a\n\nb"), vec![b"a".to_vec(), Vec::new(), b"b".to_vec()]);
    assert_eq!(split_lines(b"a\n\n"), vec![b"a".to_vec(), Vec::new()]);
}

#[test]
fn split_lines_drops_the_carriage_return_before_a_newline() {
    assert_eq!(split_lines(b"a\r\nb\r\n"), vec![b"a".to_vec(), b"b".to_vec()]);
    assert_eq!(split_lines(b"a\r\r\nb"), vec![b"a\r".to_vec(), b"b".to_vec()]);
    assert_eq!(split_lines(b"a\rb\n"), vec![b"a\rb".to_vec()]);
    assert_eq!(split_lines(b"a\nb\r"), vec![b"a".to_vec(), b"b\r".to_vec()]);
    assert_eq!(split_lines(b"\r\n"), vec![Vec::<u8>::new()]);
}

#[test]
fn split_lines_agrees_with_str_lines() {
    for text in ["", "a", "a\n", "a\nb", "a\r\nb\r\n", "\n\n", "x\r", "one\ntwo\r\n\r\nthree"] {
        assert_eq!(split_lines(text.as_bytes()), lines_of(text));
    }
}

#[test]
fn read_unsigned_reads_decimal_numerals() {
    assert_eq!(read_unsigned(b"0", 255), Some(0));
    assert_eq!(read_unsigned(b"6", 255), Some(6));
    assert_eq!(read_unsigned(b"255", 255), Some(255));
    assert_eq!(read_unsigned(b"0016", 255), Some(16));
    assert_eq!(read_unsigned(b"+7", 255), Some(7));
    assert_eq!(read_unsigned(b"24463", 0xffff), Some(24463));
    assert_eq!(read_unsigned(b"18446744073709551615", u64::MAX), Some(u64::MAX));
}

#[test]
fn read_unsigned_refuses_what_is_no_numeral_or_too_large() {
    assert_eq!(read_unsigned(b"", 255), None);
    assert_eq!(read_unsigned(b"+", 255), None);
    assert_eq!(read_unsigned(b"-1", 255), None);
    assert_eq!(read_unsigned(b"-0", 255), None);
    assert_eq!(read_unsigned(b"++1", 255), None);
    assert_eq!(read_unsigned(b"1a", 255), None);
    assert_eq!(read_unsigned(b" 1", 255), None);
    assert_eq!(read_unsigned(b"256", 255), None);
    assert_eq!(read_unsigned(b"65536", 0xffff), None);
    assert_eq!(read_unsigned(b"18446744073709551616", u64::MAX), None);
    assert_eq!(read_unsigned(b"99999999999999999999999", u64::MAX), None);
}

#[test]
fn read_signed_reads_both_signs() {
    assert_eq!(read_signed(b"-1", 128, 127), Some(-1));
    assert_eq!(read_signed(b"0", 128, 127), Some(0));
    assert_eq!(read_signed(b"-0", 128, 127), Some(0));
    assert_eq!(read_signed(b"15", 128, 127), Some(15));
    assert_eq!(read_signed(b"+15", 128, 127), Some(15));
    assert_eq!(read_signed(b"127", 128, 127), Some(127));
    assert_eq!(read_signed(b"-128", 128, 127), Some(-128));
    assert_eq!(read_signed(b"128", 128, 127), None);
    assert_eq!(read_signed(b"-129", 128, 127), None);
    assert_eq!(read_signed(b"-", 128, 127), None);
    assert_eq!(read_signed(b"", 128, 127), None);
    assert_eq!(read_signed(b"--1", 128, 127), None);
    assert_eq!(read_signed(b"-+1", 128, 127), None);
    assert_eq!(read_signed(b"1-", 128, 127), None);
}

#[test]
fn row_content_strips_the_terminator_run() {
    assert_eq!(row_content(b" _ @"), Some(b" _ ".to_vec()));
    assert_eq!(row_content(b"|_|@@"), Some(b"|_|".to_vec()));
    assert_eq!(row_content(b"ab##"), Some(b"ab".to_vec()));
    assert_eq!(row_content(b"@"), Some(Vec::new()));
    assert_eq!(row_content(b"@@@"), Some(Vec::new()));
    assert_eq!(row_content(b"a@b@"), Some(b"a@b".to_vec()));
    assert_eq!(row_content(b"a@ @"), Some(b"a@ ".to_vec()));
}

#[test]
fn line_without_a_byte_is_no_row() {
    assert_eq!(row_content(b""), None);
}

#[test]
fn stripping_again_takes_the_next_run() {
    let once = row_content(b"ab@@").unwrap();
    assert_eq!(once, b"ab".to_vec());
    assert_eq!(row_content(&once), Some(b"a".to_vec()));
    let once = row_content(b"a@@bb").unwrap();
    assert_eq!(once, b"a@@".to_vec());
    assert_eq!(row_content(&once), Some(b"a".to_vec()));
}

#[test]
fn nothing_left_cannot_be_stripped_again() {
    let once = row_content(b"@@").unwrap();
    assert_eq!(once, Vec::<u8>::new());
    assert_eq!(row_content(&once), None);
}
