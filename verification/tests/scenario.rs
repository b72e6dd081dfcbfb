use stream_slice::io::{Error, ErrorKind, Read, Seek, SeekFrom, Write};
use stream_slice::{Cursor, StreamSlice};

fn read_to_string<S: Read>(stream: &mut S, data: &mut String) -> Result<usize, Error> {
    let mut bytes = Vec::new();
    let mut chunk = [0u8; 4];
    loop {
        let n = stream.read(&mut chunk)?;
        if n == 0 {
            break;
        }
        bytes.extend_from_slice(&chunk[..n]);
    }
    let text = String::from_utf8(bytes).map_err(|_| Error::new(ErrorKind::InvalidData, "not UTF-8"))?;
    data.push_str(&text);
    Ok(text.len())
}

fn write_all<S: Write>(stream: &mut S, mut buf: &[u8]) -> Result<(), Error> {
    while !buf.is_empty() {
        match stream.write(buf)? {
            0 => return Err(Error::new(ErrorKind::WriteZero, "failed to write whole buffer")),
            n => buf = &buf[n..],
        }
    }
    Ok(())
}

#[test]
fn it_works() {
    let buf = "BeforeTest dataAfter".to_string().into_bytes();
    let cur = Cursor::new(buf);
    let mut stream = StreamSlice::new(cur, 6, 6 + 9).unwrap();

    let mut data = String::new();
    read_to_string(&mut stream, &mut data).unwrap();
    assert_eq!(data, "Test data");

    stream.seek(SeekFrom::Start(5)).unwrap();
    let mut data = String::new();
    read_to_string(&mut stream, &mut data).unwrap();
    assert_eq!(data, "data");

    stream.seek(SeekFrom::Start(5)).unwrap();
    write_all(&mut stream, "Rust".as_bytes()).unwrap();
    assert!(write_all(&mut stream, "X".as_bytes()).is_err());
    stream.seek(SeekFrom::Start(0)).unwrap();
    let mut data = String::new();
    read_to_string(&mut stream, &mut data).unwrap();
    assert_eq!(data, "Test Rust");
}
