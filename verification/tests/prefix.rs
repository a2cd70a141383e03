use bytekit::{bstr_fmt, strip_prefix, PrefixWriter};

fn chunks_of(prefix: &[u8], buf: &[u8]) -> Vec<Vec<u8>> {
    let writer = PrefixWriter::new(prefix);
    writer.write(buf).iter().map(|c| c.to_vec()).collect()
}

#[test]
fn every_line_gets_the_prefix() {
    assert_eq!(
        chunks_of(b"> ", b"foo\nbar\n"),
        vec![b"> ".to_vec(), b"foo\n".to_vec(), b"> ".to_vec(), b"bar\n".to_vec()]
    );
}

#[test]
fn last_line_may_lack_its_line_feed() {
    assert_eq!(
        chunks_of(b"remote: ", b"one\ntwo"),
        vec![b"remote: ".to_vec(), b"one\n".to_vec(), b"remote: ".to_vec(), b"two".to_vec()]
    );
}

#[test]
fn empty_lines_and_carriage_returns_are_kept() {
    assert_eq!(
        chunks_of(b"#", b"\n\nbar\r\n"),
        vec![
            b"#".to_vec(),
            b"\n".to_vec(),
            b"#".to_vec(),
            b"\n".to_vec(),
            b"#".to_vec(),
            b"bar\r\n".to_vec()
        ]
    );
}

#[test]
fn nothing_for_an_empty_buffer() {
    assert_eq!(chunks_of(b"> ", b""), Vec::<Vec<u8>>::new());
}

#[test]
fn empty_prefix_is_still_handed_over() {
    assert_eq!(chunks_of(b"", b"a\nb"), vec![b"".to_vec(), b"a\n".to_vec(), b"".to_vec(), b"b".to_vec()]);
}

#[test]
fn lines_are_the_buffer() {
    let buf = b"first\n\nsecond\r\nthird";
    let writer = PrefixWriter::new(b"| ");
    assert_eq!(writer.prefix(), b"| ");
    let chunks = writer.write(buf);
    let mut lines = Vec::new();
    for (i, chunk) in chunks.iter().enumerate() {
        if i % 2 == 0 {
            assert_eq!(*chunk, b"| ");
        } else {
            lines.extend_from_slice(chunk);
        }
    }
    assert_eq!(lines, buf.to_vec());
    assert_eq!(chunks.len(), 8);
}

#[test]
fn prefix_is_copied() {
    let mut prefix = b"ab".to_vec();
    let writer = PrefixWriter::new(&prefix);
    prefix[0] = b'x';
    assert_eq!(writer.prefix(), b"ab");
}

#[test]
fn shows_text_in_quotes() {
    assert_eq!(bstr_fmt(b"foo"), "\"foo\"");
    assert_eq!(bstr_fmt(b""), "\"\"");
}

#[test]
fn shows_other_bytes_as_escapes() {
    assert_eq!(bstr_fmt(b"foo\xFFbar"), "\"foo\\xffbar\"");
    assert_eq!(bstr_fmt(b"a\0b\n\"c\""), "\"a\\0b\\n\\\"c\\\"\"");
    assert_eq!(bstr_fmt("é".as_bytes()), "\"é\"");
}

#[test]
fn strips_a_prefix() {
    assert_eq!(strip_prefix(b"refs/heads/main", b"refs/"), Some(&b"heads/main"[..]));
    assert_eq!(strip_prefix(b"refs/heads/main", b""), Some(&b"refs/heads/main"[..]));
    assert_eq!(strip_prefix(b"refs", b"refs"), Some(&b""[..]));
    assert_eq!(strip_prefix(b"", b""), Some(&b""[..]));
}

#[test]
fn strips_nothing_else() {
    assert_eq!(strip_prefix(b"refs/heads/main", b"heads"), None);
    assert_eq!(strip_prefix(b"ref", b"refs"), None);
    assert_eq!(strip_prefix(b"", b"x"), None);
    assert_eq!(strip_prefix(b"refx", b"refs"), None);
}
