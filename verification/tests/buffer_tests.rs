use svm::buffer::BufferMut;

#[test]
fn buffer_write_and_read() {
    let cap = 10;
    let mut buf = BufferMut::new(cap);

    buf.write(&[10, 20, 30, 40, 50]);
    assert_eq!(5, buf.len());

    assert_eq!(&[10, 20, 30], buf.read(0, 3));
    assert_eq!(&[20, 30, 40, 50], buf.read(1, 4));
    assert_eq!(&[10, 20, 30, 40, 50], buf.read(0, 5));
}

#[test]
fn buffer_freeze_keeps_bytes() {
    let mut buf = BufferMut::with_bytes(vec![1, 2, 3]);
    buf.write(&[4]);
    let frozen = buf.freeze();
    assert_eq!(4, frozen.len());
    assert_eq!(&[2, 3, 4], frozen.read(1, 3));
}
