use tiktoken_interop::export::{
    BufferView, ExportViolation, TiktokenBuffer, BUF_FORMAT, BUF_ND, BUF_STRIDES, BUF_WRITABLE,
    FORMAT_UNSIGNED_INT, ITEM_SIZE,
};

fn buffer() -> TiktokenBuffer {
    TiktokenBuffer::new(vec![1, 0, 0, 3, 0, 0])
}

#[test]
fn request_bits_have_the_protocol_values() {
    assert_eq!(BUF_WRITABLE, 1);
    assert_eq!(BUF_FORMAT, 4);
    assert_eq!(BUF_ND, 8);
    assert_eq!(BUF_STRIDES, 24);
    assert_eq!(ITEM_SIZE, std::mem::size_of::<tiktoken_interop::Rank>());
    assert_eq!(FORMAT_UNSIGNED_INT, 'I');
}

#[test]
fn the_buffer_keeps_its_tokens() {
    assert_eq!(buffer().tokens(), &[1, 0, 0, 3, 0, 0]);
}

#[test]
fn a_writable_request_is_refused() {
    assert_eq!(buffer().get_buffer(BUF_WRITABLE), Err(ExportViolation::NotWritable));
    assert_eq!(
        buffer().get_buffer(BUF_WRITABLE | BUF_FORMAT | BUF_STRIDES),
        Err(ExportViolation::NotWritable)
    );
    assert_eq!(buffer().get_buffer(0x7fff_ffff), Err(ExportViolation::NotWritable));
    assert_eq!(buffer().get_buffer(-1), Err(ExportViolation::NotWritable));
}

#[test]
fn every_other_request_gets_a_read_only_view() {
    for flags in 0..64 {
        match buffer().get_buffer(flags) {
            Ok(view) => {
                assert_eq!(flags & BUF_WRITABLE, 0);
                assert!(view.readonly);
                assert_eq!(view.ndim, 1);
                assert_eq!(view.itemsize, 4);
                assert_eq!(view.len, 24);
            }
            Err(e) => {
                assert_eq!(flags & BUF_WRITABLE, BUF_WRITABLE);
                assert_eq!(e, ExportViolation::NotWritable);
            }
        }
    }
}

#[test]
fn a_simple_request_gets_no_optional_field() {
    assert_eq!(
        buffer().get_buffer(0),
        Ok(BufferView {
            len: 24,
            readonly: true,
            itemsize: 4,
            format: None,
            ndim: 1,
            shape: None,
            strides: None,
        })
    );
}

#[test]
fn a_typed_request_gets_the_format() {
    let view = buffer().get_buffer(BUF_FORMAT).unwrap();
    assert_eq!(view.format, Some('I'));
    assert_eq!(view.shape, None);
    assert_eq!(view.strides, None);
}

#[test]
fn a_shape_request_gets_the_item_count() {
    let view = buffer().get_buffer(BUF_ND).unwrap();
    assert_eq!(view.shape, Some(6));
    assert_eq!(view.strides, None);
    assert_eq!(view.format, None);
    assert_eq!(view.len, view.shape.unwrap() * view.itemsize);
}

#[test]
fn a_strides_request_gets_shape_and_strides() {
    let view = buffer().get_buffer(BUF_STRIDES).unwrap();
    assert_eq!(view.shape, Some(6));
    assert_eq!(view.strides, Some(4));
}

#[test]
fn the_strides_bit_without_the_shape_bit_gets_no_strides() {
    let view = buffer().get_buffer(0x0010).unwrap();
    assert_eq!(view.shape, None);
    assert_eq!(view.strides, None);
}

#[test]
fn a_full_request_gets_every_field() {
    assert_eq!(
        buffer().get_buffer(BUF_FORMAT | BUF_STRIDES),
        Ok(BufferView {
            len: 24,
            readonly: true,
            itemsize: 4,
            format: Some('I'),
            ndim: 1,
            shape: Some(6),
            strides: Some(4),
        })
    );
}

#[test]
fn an_empty_array_has_an_empty_view() {
    let view = TiktokenBuffer::new(Vec::new()).get_buffer(BUF_ND).unwrap();
    assert_eq!(view.len, 0);
    assert_eq!(view.shape, Some(0));
    assert!(view.readonly);
}
