use resp_codec::{
    notation, BulkString, Notation, RespArray, RespDouble, RespEncode, RespFrame, RespMap,
    RespNull, RespNullArray, RespNullBulkString, RespSet, SimpleError, SimpleString,
};

/// Writes a double as the encoder wants it: the notation by the magnitude, the
/// digits by the shortest text that reads back as the same double.
fn double(x: f64) -> RespDouble {
    let text = match notation(x.to_bits()) {
        Notation::Scientific => format!("{:e}", x),
        Notation::Fixed => format!("{}", x),
    };
    RespDouble::new(&text).unwrap()
}

#[test]
fn test_encode_simple_string() {
    let frame: RespFrame = SimpleString::new("OK".to_string()).into();
    assert_eq!(frame.encode(), b"+OK\r\n".to_vec());
}

#[test]
fn test_encode_simple_error() {
    let frame: RespFrame = SimpleError::new("ERR".to_string()).into();
    assert_eq!(frame.encode(), b"-ERR\r\n".to_vec());
}

#[test]
fn test_encode_integer() {
    let frame: RespFrame = 42.into();
    assert_eq!(frame.encode(), b":+42\r\n".to_vec());
}

#[test]
fn test_encode_bulk_string() {
    let frame: RespFrame = BulkString::new(b"Hello, World!".to_vec()).into();
    assert_eq!(frame.encode(), b"$13\r\nHello, World!\r\n");
}

#[test]
fn test_encode_null_bulk_string() {
    let frame: RespFrame = RespNullBulkString.into();
    assert_eq!(frame.encode(), b"$-1\r\n".to_vec());
}

#[test]
fn test_encode_array() {
    let frame: RespFrame = RespArray(vec![
        SimpleString::new("set".to_string()).into(),
        SimpleString::new("hello".to_string()).into(),
        SimpleString::new("world".to_string()).into(),
    ])
    .into();
    assert_eq!(
        frame.encode(),
        b"*3\r\n+set\r\n+hello\r\n+world\r\n".to_vec()
    );
}

#[test]
fn test_encode_null() {
    let frame: RespFrame = RespNull.into();
    assert_eq!(frame.encode(), b"_\r\n".to_vec());
}

#[test]
fn test_encode_null_array() {
    let frame: RespFrame = RespNullArray.into();
    assert_eq!(frame.encode(), b"*-1\r\n".to_vec());
}

#[test]
fn test_encode_bool() {
    let frame: RespFrame = true.into();
    assert_eq!(frame.encode(), b"#t\r\n");

    let frame: RespFrame = false.into();
    assert_eq!(frame.encode(), b"#f\r\n");
}

#[test]
fn test_encode_double() {
    let frame: RespFrame = double(1.234567).into();
    assert_eq!(frame.encode(), b",+1.234567\r\n");

    let frame: RespFrame = double(1.23456e+8).into();
    assert_eq!(frame.encode(), b",+1.23456e8\r\n");

    let frame: RespFrame = double(-1.23456e-9).into();
    assert_eq!(frame.encode(), b",-1.23456e-9\r\n");
}

#[test]
fn test_encode_map() {
    let mut map = RespMap::new();
    map.insert("hello".to_string(), BulkString::from("world").into());
    map.insert("foo".to_string(), double(-1.23456789).into());

    let frame: RespFrame = map.into();
    assert_eq!(
        frame.encode(),
        b"%2\r\n+foo\r\n,-1.23456789\r\n+hello\r\n$5\r\nworld\r\n"
    )
}

#[test]
fn test_encode_set() {
    let frame: RespSet = RespSet::new(vec![
        RespArray::new(vec![1234.into(), true.into()]).into(),
        BulkString::from("world".to_string()).into(),
    ]);
    assert_eq!(
        String::from_utf8_lossy(&frame.encode()),
        "~2\r\n*2\r\n:+1234\r\n#t\r\n$5\r\nworld\r\n"
    )
}
