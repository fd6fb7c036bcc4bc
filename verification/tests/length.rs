use resp_codec::{
    calc_total_length, extract_simple_frame_data, find_crlf, parse_length, BulkString, ErrorKind,
    RespArray, RespDecode, RespDouble, RespError, RespFrame, RespMap, RespNull, RespNullArray,
    RespNullBulkString, RespSet, SimpleError, SimpleString,
};

#[test]
fn test_calc_array_length() {
    let buf = b"*2\r\n$3\r\nset\r\n$5\r\nhello\r\n";
    let (end, len) = parse_length(buf, "*").unwrap();
    let total_len = calc_total_length(buf, end, len, "*").unwrap();
    assert_eq!(total_len, buf.len());

    let buf = b"*2\r\n$3\r\nset\r\n";
    let (end, len) = parse_length(buf, "*").unwrap();
    let ret = calc_total_length(buf, end, len, "*");
    assert_eq!(ret.unwrap_err(), RespError::NotComplete);
}

#[test]
fn test_calc_map_and_set_length() {
    let buf = b"%2\r\n+hello\r\n$5\r\nworld\r\n+foo\r\n,-1.5\r\nmore";
    let (end, len) = parse_length(buf, "%").unwrap();
    assert_eq!((end, len), (2, 2));
    assert_eq!(calc_total_length(buf, end, len, "%").unwrap(), buf.len() - 4);

    let buf = b"~2\r\n:1\r\n*1\r\n_\r\n";
    let (end, len) = parse_length(buf, "~").unwrap();
    assert_eq!(calc_total_length(buf, end, len, "~").unwrap(), buf.len());
}

#[test]
fn test_calc_total_length_of_another_prefix() {
    let buf = b"$5\r\nhello\r\n";
    let (end, len) = parse_length(buf, "$").unwrap();
    assert_eq!((end, len), (2, 5));
    assert_eq!(calc_total_length(buf, end, len, "$").unwrap(), 7);
}

#[test]
fn test_calc_map_length_key_of_another_type() {
    let buf = b"%1\r\n:1\r\n:2\r\n";
    let (end, len) = parse_length(buf, "%").unwrap();
    let ret = calc_total_length(buf, end, len, "%");
    assert_eq!(ret.unwrap_err().kind(), ErrorKind::InvalidFrameType);
}

#[test]
fn test_parse_length() {
    assert_eq!(parse_length(b"*12\r\n", "*").unwrap(), (3, 12));
    assert_eq!(parse_length(b"$+7\r\n", "$").unwrap(), (3, 7));
    assert_eq!(parse_length(b"$007\r\n", "$").unwrap(), (4, 7));
    assert_eq!(parse_length(b"*0\r\nrest", "*").unwrap(), (2, 0));
    assert_eq!(parse_length(b"*1", "*").unwrap_err(), RespError::NotComplete);
    assert_eq!(parse_length(b"*12\r", "*").unwrap_err(), RespError::NotComplete);
    assert_eq!(
        parse_length(b"$12\r\n", "*").unwrap_err().kind(),
        ErrorKind::InvalidFrameType
    );
    for bad in [&b"*-1\r\n"[..], &b"*\r\n"[..], &b"*1a\r\n"[..], &b"*+\r\n"[..], &b"* 1\r\n"[..]] {
        assert_eq!(parse_length(bad, "*").unwrap_err().kind(), ErrorKind::InvalidFrameLength);
    }
    assert_eq!(
        parse_length(b"*340282366920938463463374607431768211456\r\n", "*").unwrap_err().kind(),
        ErrorKind::InvalidFrameLength
    );
    assert_eq!(
        parse_length(format!("*{}\r\n", usize::MAX).as_bytes(), "*").unwrap(),
        (1 + usize::MAX.to_string().len(), usize::MAX)
    );
}

#[test]
fn test_extract_simple_frame_data() {
    assert_eq!(extract_simple_frame_data(b"+OK\r\n", "+").unwrap(), 3);
    assert_eq!(extract_simple_frame_data(b"+\r\n", "+").unwrap(), 1);
    assert_eq!(extract_simple_frame_data(b"+OK\r\n+more\r\n", "+").unwrap(), 3);
    assert_eq!(extract_simple_frame_data(b"+O", "+").unwrap_err(), RespError::NotComplete);
    assert_eq!(extract_simple_frame_data(b"-O", "+").unwrap_err(), RespError::NotComplete);
    assert_eq!(extract_simple_frame_data(b"+OK\r", "+").unwrap_err(), RespError::NotComplete);
    assert_eq!(extract_simple_frame_data(b"+OK\n\r", "+").unwrap_err(), RespError::NotComplete);
    assert_eq!(
        extract_simple_frame_data(b"-OK\r\n", "+").unwrap_err().kind(),
        ErrorKind::InvalidFrameType
    );
    assert_eq!(
        extract_simple_frame_data(b"-OK\r\n", "+").unwrap_err(),
        RespError::InvalidFrameType("expect: SimpleString(+), got: [45, 79, 75, 13, 10]".to_string())
    );
}

#[test]
fn test_find_crlf() {
    let buf = b"a\r\nbc\r\n\r\n";
    assert_eq!(find_crlf(buf, 1), Some(1));
    assert_eq!(find_crlf(buf, 2), Some(5));
    assert_eq!(find_crlf(buf, 3), Some(7));
    assert_eq!(find_crlf(buf, 4), None);
    assert_eq!(find_crlf(buf, 0), None);
    assert_eq!(find_crlf(b"", 1), None);
    assert_eq!(find_crlf(b"\r", 1), None);
    assert_eq!(find_crlf(b"abc\r", 1), None);
    assert_eq!(find_crlf(b"\n\r", 1), None);
    assert_eq!(find_crlf(b"\r\r\n", 1), Some(1));
    assert_eq!(find_crlf(b"\r\n", 1), Some(0));
}

#[test]
fn test_expect_length_nested_truncation() {
    let mut buf = b"*2\r\n$3\r\nset\r\n".to_vec();
    assert_eq!(RespFrame::expect_length(&buf).unwrap_err(), RespError::NotComplete);
    assert_eq!(RespArray::expect_length(&buf).unwrap_err(), RespError::NotComplete);
    buf.extend_from_slice(b"$5\r\nhello\r\n");
    assert_eq!(RespFrame::expect_length(&buf).unwrap(), buf.len());
    assert_eq!(RespArray::expect_length(&buf).unwrap(), buf.len());
}

#[test]
fn test_expect_length_grows_with_the_buffer() {
    let whole = b"%1\r\n+key\r\n*2\r\n$3\r\nabc\r\n,+1.5\r\n";
    for cut in 0..whole.len() {
        assert_eq!(
            RespFrame::expect_length(&whole[..cut]).unwrap_err(),
            RespError::NotComplete
        );
    }
    assert_eq!(RespFrame::expect_length(whole).unwrap(), whole.len());
    let mut longer = whole.to_vec();
    longer.extend_from_slice(b"+next");
    assert_eq!(RespFrame::expect_length(&longer).unwrap(), whole.len());
}

#[test]
fn test_expect_length_never_counts_missing_bytes() {
    assert_eq!(RespFrame::expect_length(b"$5\r\nhe").unwrap_err(), RespError::NotComplete);
    assert_eq!(BulkString::expect_length(b"$5\r\nhello\r").unwrap_err(), RespError::NotComplete);
    assert_eq!(BulkString::expect_length(b"$5\r\nhello\r\n").unwrap(), 11);
    assert_eq!(RespFrame::expect_length(b"_").unwrap_err(), RespError::NotComplete);
    assert_eq!(RespFrame::expect_length(b"_\r\n").unwrap(), 3);
    assert_eq!(RespFrame::expect_length(b"*1\r\n$5\r\nhe").unwrap_err(), RespError::NotComplete);
}

#[test]
fn test_expect_length_of_each_type() {
    assert_eq!(SimpleString::expect_length(b"+OK\r\n").unwrap(), 5);
    assert_eq!(SimpleError::expect_length(b"-ERR\r\n").unwrap(), 6);
    assert_eq!(i64::expect_length(b":+1\r\nrest").unwrap(), 5);
    assert_eq!(bool::expect_length(b"#t\r\n").unwrap(), 4);
    assert_eq!(RespDouble::expect_length(b",not a number\r\n").unwrap(), 15);
    assert_eq!(RespNull::expect_length(b"_\r\n").unwrap(), 3);
    assert_eq!(RespNullBulkString::expect_length(b"$-1\r\n").unwrap(), 5);
    assert_eq!(RespNullArray::expect_length(b"*-1\r\n").unwrap(), 5);
    assert_eq!(RespFrame::expect_length(b"$-1\r\n").unwrap(), 5);
    assert_eq!(RespFrame::expect_length(b"*-1\r\n").unwrap(), 5);
    assert_eq!(RespSet::expect_length(b"~1\r\n_\r\n").unwrap(), 7);
    assert_eq!(RespMap::expect_length(b"%1\r\n+a\r\n_\r\n").unwrap(), 11);
    assert_eq!(
        SimpleString::expect_length(b"-OK\r\n").unwrap_err().kind(),
        ErrorKind::InvalidFrameType
    );
    assert_eq!(
        RespNull::expect_length(b"+OK\r\n").unwrap_err().kind(),
        ErrorKind::InvalidFrameType
    );
    assert_eq!(
        BulkString::expect_length(b"$-1\r\n").unwrap_err().kind(),
        ErrorKind::InvalidFrameLength
    );
    assert_eq!(
        RespNullArray::expect_length(b"*0\r\n").unwrap_err().kind(),
        ErrorKind::InvalidFrameType
    );
}

#[test]
fn test_prefixes() {
    assert_eq!(<RespFrame as RespDecode>::PREFIX, "");
    assert_eq!(<SimpleString as RespDecode>::PREFIX, "+");
    assert_eq!(<SimpleError as RespDecode>::PREFIX, "-");
    assert_eq!(<i64 as RespDecode>::PREFIX, ":");
    assert_eq!(<bool as RespDecode>::PREFIX, "#");
    assert_eq!(<RespDouble as RespDecode>::PREFIX, ",");
    assert_eq!(<RespNull as RespDecode>::PREFIX, "_");
    assert_eq!(<BulkString as RespDecode>::PREFIX, "$");
    assert_eq!(<RespArray as RespDecode>::PREFIX, "*");
    assert_eq!(<RespSet as RespDecode>::PREFIX, "~");
    assert_eq!(<RespMap as RespDecode>::PREFIX, "%");
}

#[test]
fn test_final_answers_stay() {
    let malformed: [&[u8]; 6] = [
        b"?",
        b"*x\r\n",
        b"$-2\r\n",
        b"%1\r\n:1\r\n",
        b"*2\r\n:1\r\n~-1\r\n",
        b"~1\r\n!",
    ];
    for start in malformed {
        let first = RespFrame::expect_length(start).unwrap_err().kind();
        assert_ne!(first, ErrorKind::NotComplete);
        for extra in [&b"\r\n"[..], &b"+OK\r\n"[..], &b"1"[..], &b"\n"[..]] {
            let mut longer = start.to_vec();
            longer.extend_from_slice(extra);
            assert_eq!(RespFrame::expect_length(&longer).unwrap_err().kind(), first);
        }
    }
}

#[test]
fn test_added_bytes_can_make_a_frame_malformed() {
    assert_eq!(RespFrame::expect_length(b"*").unwrap_err(), RespError::NotComplete);
    assert_eq!(
        RespFrame::expect_length(b"*x\r\n").unwrap_err().kind(),
        ErrorKind::InvalidFrameLength
    );
    assert_eq!(RespFrame::expect_length(b"").unwrap_err(), RespError::NotComplete);
    assert_eq!(RespFrame::expect_length(b"x").unwrap_err().kind(), ErrorKind::InvalidFrameType);
}
