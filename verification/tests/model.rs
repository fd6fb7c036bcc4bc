use bytes::BytesMut;
use resp_codec::{
    notation, BulkString, ErrorKind, Notation, RespArray, RespDecode, RespDouble, RespEncode,
    RespError, RespFrame, RespMap, RespNull, RespNullArray, RespNullBulkString, RespSet,
    SimpleError, SimpleString,
};

fn double(x: f64) -> RespDouble {
    let text = match notation(x.to_bits()) {
        Notation::Scientific => format!("{:e}", x),
        Notation::Fixed => format!("{}", x),
    };
    RespDouble::new(&text).unwrap()
}

fn encoded(x: f64) -> String {
    String::from_utf8(double(x).encode()).unwrap()
}

#[test]
fn test_integer_signing() {
    assert_eq!(42i64.encode(), b":+42\r\n");
    assert_eq!((-7i64).encode(), b":-7\r\n");
    assert_eq!(0i64.encode(), b":+0\r\n");
    assert_eq!(i64::MAX.encode(), b":+9223372036854775807\r\n");
    assert_eq!(i64::MIN.encode(), b":-9223372036854775808\r\n");
    assert_eq!(RespFrame::Integer(-10).encode(), b":-10\r\n");
    assert_eq!(1000i64.encode(), b":+1000\r\n");
}

#[test]
fn test_double_notation_threshold() {
    assert_eq!(encoded(1.23456e8), ",+1.23456e8\r\n");
    assert_eq!(encoded(1.234567), ",+1.234567\r\n");
    assert_eq!(encoded(-1.23456e-9), ",-1.23456e-9\r\n");
    assert_eq!(encoded(1e8), ",+100000000\r\n");
    assert_eq!(encoded(-1e8), ",-100000000\r\n");
    assert_eq!(encoded(100000000.00000001), ",+1.0000000000000001e8\r\n");
    assert_eq!(encoded(1e-8), ",+0.00000001\r\n");
    assert_eq!(encoded(9.999999e-9), ",+9.999999e-9\r\n");
    assert_eq!(encoded(0.0), ",+0\r\n");
    assert_eq!(encoded(-0.0), ",-0\r\n");
    assert_eq!(encoded(1e300), ",+1e300\r\n");
    assert_eq!(encoded(f64::INFINITY), ",+inf\r\n");
    assert_eq!(encoded(f64::NEG_INFINITY), ",-inf\r\n");
    assert_eq!(encoded(f64::NAN), ",+NaN\r\n");
}

#[test]
fn test_notation_by_bits() {
    assert_eq!(1e8f64.to_bits(), 0x4197_D784_0000_0000);
    assert_eq!(1e-8f64.to_bits(), 0x3E45_798E_E230_8C3A);
    assert_eq!(f64::INFINITY.to_bits(), 0x7FF0_0000_0000_0000);
    assert_eq!(notation(1e8f64.to_bits()), Notation::Fixed);
    assert_eq!(notation(1e8f64.to_bits() + 1), Notation::Scientific);
    assert_eq!(notation((-1e8f64).to_bits()), Notation::Fixed);
    assert_eq!(notation((-1e9f64).to_bits()), Notation::Scientific);
    assert_eq!(notation(1e-8f64.to_bits()), Notation::Fixed);
    assert_eq!(notation(1e-8f64.to_bits() - 1), Notation::Scientific);
    assert_eq!(notation(0f64.to_bits()), Notation::Fixed);
    assert_eq!(notation((-0f64).to_bits()), Notation::Fixed);
    assert_eq!(notation(f64::MIN_POSITIVE.to_bits()), Notation::Scientific);
    assert_eq!(notation(1u64), Notation::Scientific);
    assert_eq!(notation(f64::INFINITY.to_bits()), Notation::Scientific);
    assert_eq!(notation(f64::NAN.to_bits()), Notation::Fixed);
    assert_eq!(notation(1.0f64.to_bits()), Notation::Fixed);
}

#[test]
fn test_double_text() {
    for text in [
        "0", "1", "+1", "-1", "1.", ".5", "1.5", "1e5", "1E5", "1e+5", "1e-5", "1.e5", ".5e5",
        "-12.75E-12", "inf", "+inf", "-INF", "Infinity", "-infinity", "nan", "NaN", "+nan", "007",
    ] {
        let d = RespDouble::new(text).unwrap_or_else(|| panic!("{} is a double", text));
        assert!(text.parse::<f64>().is_ok(), "{}", text);
        let signed = if text.starts_with('+') || text.starts_with('-') {
            text.to_string()
        } else {
            format!("+{}", text)
        };
        assert_eq!(d.as_bytes(), signed.as_bytes());
    }
    for text in [
        "", "+", "-", ".", "+.", "e5", "1e", "1e+", "1.5.5", "1 ", " 1", "1,5", "0x10", "in",
        "infinit", "infinityy", "nana", "1e5.5", "--1", "+-1", "1_000", "1f", "\r\n",
    ] {
        assert!(RespDouble::new(text).is_none(), "{:?} is no double", text);
        assert!(text.parse::<f64>().is_err(), "{:?}", text);
    }
}

#[test]
fn test_map_key_ordering() {
    let mut map = RespMap::new();
    assert_eq!(map.insert("hello".to_string(), BulkString::from("world").into()), None);
    assert_eq!(map.insert("foo".to_string(), double(-1.23456789).into()), None);
    assert_eq!(map.len(), 2);
    assert_eq!(map.entry(0).0, "foo");
    assert_eq!(map.entry(1).0, "hello");
    assert_eq!(
        RespFrame::from(map).encode(),
        b"%2\r\n+foo\r\n,-1.23456789\r\n+hello\r\n$5\r\nworld\r\n"
    );
}

#[test]
fn test_map_orders_keys_by_their_bytes() {
    let keys = ["b", "a", "", "ab", "B", "é", "z", "a\u{10000}", "aa", "~"];
    let mut map = RespMap::new();
    for (i, key) in keys.iter().enumerate() {
        map.insert(key.to_string(), (i as i64).into());
    }
    let mut sorted: Vec<String> = keys.iter().map(|k| k.to_string()).collect();
    sorted.sort();
    assert_eq!(map.len(), sorted.len());
    for (i, key) in sorted.iter().enumerate() {
        assert_eq!(map.entry(i).0, key);
    }
}

#[test]
fn test_map_insert_replaces() {
    let mut map = RespMap::new();
    assert_eq!(map.len(), 0);
    assert_eq!(map.get("a"), None);
    assert_eq!(map.insert("a".to_string(), 1.into()), None);
    assert_eq!(map.insert("b".to_string(), 2.into()), None);
    assert_eq!(map.insert("a".to_string(), 3.into()), Some(RespFrame::Integer(1)));
    assert_eq!(map.len(), 2);
    assert_eq!(map.get("a"), Some(&RespFrame::Integer(3)));
    assert_eq!(map.get("b"), Some(&RespFrame::Integer(2)));
    assert_eq!(map.get("c"), None);
    assert_eq!(map.encode(), b"%2\r\n+a\r\n:+3\r\n+b\r\n:+2\r\n");
}

#[test]
fn test_distinct_null_forms() {
    let null = RespFrame::from(RespNull);
    let null_array = RespFrame::from(RespNullArray);
    let null_bulk = RespFrame::from(RespNullBulkString);
    let empty_array = RespFrame::from(RespArray::new(vec![]));
    let empty_bulk = RespFrame::from(BulkString::new(vec![]));
    assert_ne!(null, null_array);
    assert_ne!(null, null_bulk);
    assert_ne!(null_array, null_bulk);
    assert_ne!(null_array, empty_array);
    assert_ne!(null_bulk, empty_bulk);
    assert_eq!(null.encode(), b"_\r\n");
    assert_eq!(null_array.encode(), b"*-1\r\n");
    assert_eq!(null_bulk.encode(), b"$-1\r\n");
    assert_eq!(empty_array.encode(), b"*0\r\n");
    assert_eq!(empty_bulk.encode(), b"$0\r\n\r\n");
    assert_eq!(RespNull.encode(), b"_\r\n");
    assert_eq!(RespNullArray.encode(), b"*-1\r\n");
    assert_eq!(RespNullBulkString.encode(), b"$-1\r\n");
}

#[test]
fn test_encode_each_type_by_itself() {
    assert_eq!(SimpleString::from("OK").encode(), b"+OK\r\n");
    assert_eq!(SimpleError::new("ERR".to_string()).encode(), b"-ERR\r\n");
    assert_eq!(BulkString::from(b"hi").encode(), b"$2\r\nhi\r\n");
    assert_eq!(BulkString::from("héllo".to_string()).encode(), "$6\r\nhéllo\r\n".as_bytes());
    assert_eq!(RespFrame::from(b"hi").encode(), b"$2\r\nhi\r\n");
    assert_eq!(true.encode(), b"#t\r\n");
    assert_eq!(false.encode(), b"#f\r\n");
    assert_eq!(RespDouble::new("1.5").unwrap().encode(), b",+1.5\r\n");
    assert_eq!(RespArray::from(vec![1.into()]).encode(), b"*1\r\n:+1\r\n");
    assert_eq!(RespSet::new(vec![1.into(), 1.into()]).encode(), b"~2\r\n:+1\r\n:+1\r\n");
    let long = BulkString::new(vec![b'x'; 1234]);
    assert!(long.encode().starts_with(b"$1234\r\nxxx"));
}

#[test]
fn test_views_into_the_values() {
    let s = SimpleString::new("OK".to_string());
    assert_eq!(s.len(), 2);
    assert_eq!(*s, "OK");
    let b = BulkString::new(vec![1, 2, 3]);
    assert_eq!(b.as_slice(), &[1, 2, 3]);
    let a = RespArray::new(vec![1.into(), 2.into()]);
    assert_eq!(a.len(), 2);
    assert_eq!(a[1], RespFrame::Integer(2));
    let set = RespSet::new(vec![true.into()]);
    assert_eq!(set[0], RespFrame::Boolean(true));
}

#[test]
fn test_error_kinds() {
    assert_eq!(RespError::NotComplete.kind(), ErrorKind::NotComplete);
    assert_eq!(RespError::InvalidFrame("x".to_string()).kind(), ErrorKind::InvalidFrame);
    assert_eq!(RespError::InvalidFrameType("x".to_string()).kind(), ErrorKind::InvalidFrameType);
    assert_eq!(
        RespError::InvalidFrameLength("x".to_string()).kind(),
        ErrorKind::InvalidFrameLength
    );
    assert_eq!(RespError::ParseFloatError("x".to_string()).kind(), ErrorKind::ParseFloatError);
    let e = "x".parse::<i64>().unwrap_err();
    assert_eq!(RespError::ParseIntError(e).kind(), ErrorKind::ParseIntError);
}

#[test]
fn test_error_messages() {
    assert_eq!(RespError::InvalidFrame("x".to_string()).message(), "Invalid frame: x");
    assert_eq!(RespError::InvalidFrameType("y".to_string()).message(), "Invalid frame type: y");
    assert_eq!(
        RespError::InvalidFrameLength("z".to_string()).message(),
        "Invalid frame length: z"
    );
    assert_eq!(RespError::NotComplete.message(), "Frame is not complete");
    let e = "x".parse::<i64>().unwrap_err();
    assert_eq!(
        RespError::ParseIntError(e.clone()).message(),
        format!("Parse int error: {}", e)
    );
    let e = "abc".parse::<f64>().unwrap_err();
    assert_eq!(
        RespError::ParseFloatError("abc".to_string()).message(),
        format!("Parse float error: {}", e)
    );
    let e = "".parse::<f64>().unwrap_err();
    assert_eq!(
        RespError::ParseFloatError("".to_string()).message(),
        format!("Parse float error: {}", e)
    );
}

#[test]
fn test_double_round_trip_across_the_threshold() {
    let values = [
        1e8,
        100000000.00000001,
        99999999.99999999,
        -1e8,
        1e-8,
        0.000000009999999999999999,
        0.000000010000000000000002,
        -1e-8,
        0.0,
        -0.0,
        1.5,
        -2.5e10,
        123456789.0,
        f64::MAX,
        f64::MIN,
        f64::MIN_POSITIVE,
        5e-324,
        f64::EPSILON,
        f64::INFINITY,
        f64::NEG_INFINITY,
    ];
    for x in values {
        let bytes = double(x).encode();
        let mut buf = BytesMut::from(&bytes[..]);
        let frame = RespFrame::decode(&mut buf).unwrap();
        assert!(buf.is_empty());
        let text = match &frame {
            RespFrame::Double(d) => std::str::from_utf8(d.as_bytes()).unwrap().to_string(),
            other => panic!("{:?} is no double", other),
        };
        let y: f64 = text.parse().unwrap();
        assert_eq!(y.to_bits(), x.to_bits(), "{}", text);
        assert_eq!(frame.encode(), bytes);
    }
    let bytes = double(f64::NAN).encode();
    let mut buf = BytesMut::from(&bytes[..]);
    let frame = RespDouble::decode(&mut buf).unwrap();
    let y: f64 = std::str::from_utf8(frame.as_bytes()).unwrap().parse().unwrap();
    assert!(y.is_nan());
}
