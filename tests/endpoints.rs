use rw_builder::{ChildBuilder, Error, VecBuilder};

#[test]
fn shared_buffer_reads_what_was_written_in_order() {
    let mut store = VecBuilder::new();
    let mut writer = store.writer();
    assert_eq!(writer.write(&mut store, &[1, 2, 3]), 3);
    let mut reader = store.reader();
    let mut buf = [0u8; 2];
    assert_eq!(reader.read(&store, &mut buf), 2);
    assert_eq!(buf, [1, 2]);
    let mut second = store.writer();
    assert_eq!(second.write(&mut store, &[4, 5]), 2);
    let mut buf = [9u8; 4];
    assert_eq!(reader.read(&store, &mut buf), 3);
    assert_eq!(buf, [3, 4, 5, 9]);
    assert_eq!(reader.read(&store, &mut buf), 0);
    writer.flush();
    assert_eq!(writer.write(&mut store, &[6]), 1);
    assert_eq!(reader.read(&store, &mut buf), 1);
    assert_eq!(buf[0], 6);
    assert_eq!(store.len(), 6);
}

#[test]
fn empty_shared_buffer_reads_nothing() {
    let store = VecBuilder::default();
    let mut reader = store.reader();
    let mut buf = [0u8; 8];
    assert_eq!(reader.read(&store, &mut buf), 0);
    assert_eq!(reader.position(), 0);
}

#[test]
fn attached_handles_are_claimed_once() {
    let mut child: ChildBuilder<u32, &str> = ChildBuilder::new(Some(7), Some("out"));
    assert_eq!(child.reader(), Ok("out"));
    assert_eq!(child.reader(), Err(Error::NoStdout));
    assert_eq!(child.writer(), Ok(7));
    assert_eq!(child.writer(), Err(Error::NoStdin));
    let mut none: ChildBuilder<u32, u32> = ChildBuilder::new(None, None);
    assert_eq!(none.writer(), Err(Error::NoStdin));
    assert_eq!(none.reader(), Err(Error::NoStdout));
}
