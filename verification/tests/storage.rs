use std::sync::Arc;

use base64::engine::general_purpose::STANDARD;
use base64::Engine;
use kitty_graphics::raster::{
    image_from_png, image_from_raw, image_from_rgba, image_from_transfer, rgb_to_rgba,
};
use kitty_graphics::{
    extract_kitty_apc_buffered, ImageStorage, KittyParams, RenderImage, TransferError,
};

fn payload(params: &str, raw: &[u8]) -> Vec<u8> {
    format!("{};{}", params, STANDARD.encode(raw)).into_bytes()
}

fn png(pixels: &[u8], width: u32, height: u32) -> Vec<u8> {
    let image = image::RgbaImage::from_raw(width, height, pixels.to_vec()).unwrap();
    let mut file = std::io::Cursor::new(Vec::new());
    image.write_to(&mut file, image::ImageFormat::Png).unwrap();
    file.into_inner()
}

#[test]
fn test_query_response() {
    let mut storage = ImageStorage::new();
    let resp = storage.process_command(b"a=q,i=31,s=1,v=1,t=d,f=24;AAAA");
    assert_eq!(resp, Some(b"\x1b_Gi=31;OK\x1b\\".to_vec()));
}

#[test]
fn query_keeps_to_the_level_of_quiet() {
    let mut storage = ImageStorage::new();
    assert_eq!(storage.process_command(b"a=q,q=0"), Some(b"\x1b_Gi=0;OK\x1b\\".to_vec()));
    assert_eq!(storage.process_command(b"a=q,i=31,q=1"), None);
    assert_eq!(storage.process_command(b"a=q,i=31,q=2"), None);
    assert!(!storage.has_images());
}

#[test]
fn rgba_image_is_stored_and_placed() {
    let mut storage = ImageStorage::new();
    assert!(!storage.has_images());
    let resp = storage.process_command(&payload("a=T,f=32,s=1,v=2,i=7,z=-3", b"ABCDEFGH"));
    assert_eq!(resp, Some(b"\x1b_Gi=7;OK\x1b\\".to_vec()));
    assert!(storage.has_images());
    let image = storage.get_image(7).unwrap();
    assert_eq!((image.width, image.height), (1, 2));
    assert_eq!(image.render_image.pixels, b"ABCDEFGH");
    assert!(storage.get_image(8).is_none());

    assert_eq!(storage.placements.len(), 1);
    let placement = storage.placements[0].clone();
    assert!(Arc::ptr_eq(&placement.render_image, &image.render_image));
    assert_eq!(placement.image_id, 7);
    assert_eq!((placement.width, placement.height), (1, 2));
    assert_eq!(placement.z_index, -3);
    assert!(placement.needs_cursor_position);
    assert!(!placement.use_unicode_placeholders);
    assert!(!placement.is_clear);
    assert_eq!((placement.col, placement.row, placement.cols, placement.rows), (0, 0, 0, 0));
    assert!(storage.current_display.is_empty());
}

#[test]
fn rgb_image_becomes_opaque() {
    let mut storage = ImageStorage::new();
    let resp = storage.process_command(&payload("f=24,s=2,v=1,i=3", b"abcdef"));
    assert_eq!(resp, Some(b"\x1b_Gi=3;OK\x1b\\".to_vec()));
    assert_eq!(storage.get_image(3).unwrap().render_image.pixels, b"abc\xffdef\xff");
    assert_eq!(rgb_to_rgba(b"abcde"), b"abc\xff");
    assert_eq!(rgb_to_rgba(b"ab"), b"");
}

#[test]
fn png_image_is_decoded() {
    let pixels = [1, 2, 3, 255, 4, 5, 6, 128, 7, 8, 9, 0, 10, 11, 12, 255, 0, 0, 0, 1, 9, 9, 9, 9];
    let mut storage = ImageStorage::new();
    let resp = storage.process_command(&payload("a=T,f=100,i=5,s=999", &png(&pixels, 3, 2)));
    assert_eq!(resp, Some(b"\x1b_Gi=5;OK\x1b\\".to_vec()));
    let image = storage.get_image(5).unwrap();
    assert_eq!((image.width, image.height), (3, 2));
    assert_eq!(image.render_image.pixels, pixels);
    assert_eq!(storage.placements.len(), 1);
}

#[test]
fn transmission_alone_displays_nothing() {
    let mut storage = ImageStorage::new();
    let params = KittyParams::parse(b"a=t,f=24,s=1,v=1,i=7");
    let resp = storage.handle_transmit(params, b"AAAA");
    assert_eq!(resp, Some(b"\x1b_Gi=7;OK\x1b\\".to_vec()));
    assert!(storage.get_image(7).is_some());
    assert!(storage.placements.is_empty());

    // The first chunk decides.
    storage.process_command(b"a=t,f=24,s=1,v=1,i=8,m=1;AA");
    storage.process_command(b"a=T;AA");
    assert!(storage.get_image(8).is_some());
    assert!(storage.placements.is_empty());
    storage.process_command(b"a=T,f=24,s=1,v=1,i=9,m=1;AA");
    storage.process_command(b"a=t;AA");
    assert_eq!(storage.placements.len(), 1);
    assert_eq!(storage.placements[0].image_id, 9);
}

#[test]
fn unicode_placement_is_left_to_the_placeholders() {
    let mut storage = ImageStorage::new();
    storage.process_command(&payload("f=32,s=1,v=1,i=2,U=1", b"rgba"));
    assert!(storage.get_image(2).is_some());
    assert!(storage.placements.is_empty());
}

#[test]
fn refusals_say_why() {
    let mut storage = ImageStorage::new();
    let mut refused = |p: &[u8]| {
        let resp = storage.process_command(p);
        assert!(!storage.has_images());
        assert!(storage.placements.is_empty());
        String::from_utf8(resp.unwrap()).unwrap()
    };
    assert_eq!(refused(b"f=32,s=1,v=1,i=1;*"), "\x1b_Gi=1;EBASD64\x1b\\");
    assert_eq!(refused(b"f=32,s=1,v=1,i=1;QUJ"), "\x1b_Gi=1;EBASD64\x1b\\");
    assert_eq!(refused(b"f=100,i=1;QUJD"), "\x1b_Gi=1;EPNG\x1b\\");
    assert_eq!(refused(b"f=32,s=0,v=1,i=1;QUJDRA=="), "\x1b_Gi=1;EDIM\x1b\\");
    assert_eq!(refused(b"f=24,s=1,i=1;QUJD"), "\x1b_Gi=1;EDIM\x1b\\");
    assert_eq!(refused(b"f=32,s=1,v=1,i=1;QUJD"), "\x1b_Gi=1;EDATA\x1b\\");
    assert_eq!(refused(b"f=24,s=2,v=1,i=1;QUJDRA=="), "\x1b_Gi=1;EDATA\x1b\\");
    assert_eq!(refused(b"f=24,s=65536,v=65536,i=1;QUJD"), "\x1b_Gi=1;EDATA\x1b\\");
    assert_eq!(refused(b"f=32,s=4294967295,v=4294967295,i=1;QUJD"), "\x1b_Gi=1;EDATA\x1b\\");
    assert_eq!(refused(b"s=1,v=1,i=1;QUJD"), "\x1b_Gi=1;EFMT\x1b\\");
}

#[test]
fn quiet_levels() {
    let mut storage = ImageStorage::new();
    assert_eq!(storage.process_command(&payload("f=32,s=1,v=1,i=1,q=1", b"rgba")), None);
    assert!(storage.get_image(1).is_some());
    assert_eq!(
        storage.process_command(b"f=1,i=1,q=1;"),
        Some(b"\x1b_Gi=1;EFMT\x1b\\".to_vec())
    );
    assert_eq!(storage.process_command(&payload("f=32,s=1,v=1,i=2,q=2", b"rgba")), None);
    assert!(storage.get_image(2).is_some());
    assert_eq!(storage.process_command(b"f=1,i=1,q=2;"), None);
}

#[test]
fn extra_bytes_stay_in_the_buffer() {
    let image = image_from_rgba(1, 1, b"rgba++".to_vec()).unwrap();
    assert_eq!(image.pixels, b"rgba++");
    assert_eq!(image_from_rgba(0, 1, vec![]).unwrap_err(), TransferError::Dimensions);
    assert_eq!(image_from_rgba(1, 2, b"rgba".to_vec()).unwrap_err(), TransferError::Data);
}

#[test]
fn decoding_by_format() {
    let params = KittyParams { format: 100, ..KittyParams::default() };
    let file = png(b"rgba", 1, 1);
    assert_eq!(image_from_raw(&params, file.clone()).unwrap().pixels, b"rgba");
    assert_eq!(image_from_raw(&params, b"rgba".to_vec()).unwrap_err(), TransferError::Png);
    let text = STANDARD.encode(&file);
    assert_eq!(image_from_transfer(&params, text.as_bytes()).unwrap().pixels, b"rgba");
    assert_eq!(image_from_transfer(&params, &file).unwrap_err(), TransferError::Base64);
    let params = KittyParams { format: 33, ..params };
    assert_eq!(image_from_raw(&params, file).unwrap_err(), TransferError::Format);
    assert_eq!(image_from_png(None).unwrap_err(), TransferError::Png);
}

#[test]
fn finished_transfers() {
    let mut storage = ImageStorage::new();
    let params = KittyParams { action: b'T', z_index: 4, ..KittyParams::default() };
    let image = RenderImage { width: 1, height: 1, pixels: b"rgba".to_vec() };
    assert_eq!(
        storage.finish_transfer(9, params, Ok(image)),
        Some(b"\x1b_Gi=9;OK\x1b\\".to_vec())
    );
    assert_eq!(storage.get_image(9).unwrap().render_image.pixels, b"rgba");
    assert_eq!(storage.placements[0].z_index, 4);
    assert_eq!(
        storage.finish_transfer(9, params, Err(TransferError::Png)),
        Some(b"\x1b_Gi=9;EPNG\x1b\\".to_vec())
    );
    assert!(storage.get_image(9).is_some());
}

#[test]
fn chunks_are_put_together() {
    let mut storage = ImageStorage::new();
    assert_eq!(storage.process_command(b"f=32,s=1,v=2,i=4,m=1,z=2;QUJD"), None);
    assert_eq!(storage.process_command(b"m=1;REVG"), None);
    assert!(!storage.has_images());
    assert_eq!(
        storage.process_command(b"m=0,q=2,f=24;R0g="),
        Some(b"\x1b_Gi=4;OK\x1b\\".to_vec())
    );
    assert_eq!(storage.get_image(4).unwrap().render_image.pixels, b"ABCDEFGH");
    assert_eq!(storage.placements[0].z_index, 2);
}

#[test]
fn chunks_without_a_number_are_put_together() {
    let mut storage = ImageStorage::new();
    storage.process_command(&payload("f=32,s=1,v=1,i=7", b"aaaa"));
    assert_eq!(storage.process_command(b"f=32,s=1,v=1,m=1;cm"), None);
    assert_eq!(storage.process_command(b"m=1;di"), None);
    assert_eq!(storage.process_command(b"m=0;YQ=="), Some(b"\x1b_Gi=0;OK\x1b\\".to_vec()));
    assert_eq!(storage.get_image(0).unwrap().render_image.pixels, b"rgba");
    assert_eq!(storage.get_image(7).unwrap().render_image.pixels, b"aaaa");
}

#[test]
fn transfers_of_two_images_do_not_mix() {
    let mut storage = ImageStorage::new();
    storage.process_command(b"f=32,s=1,v=1,i=1,m=1;cm");
    storage.process_command(b"f=32,s=1,v=1,i=2,m=1;Uk");
    storage.process_command(b"i=1;diYQ==");
    assert!(storage.get_image(1).is_some());
    assert_eq!(storage.get_image(1).unwrap().render_image.pixels, b"rgba");
    storage.process_command(b";dCQQ==");
    // The last transfer was that of image 1, so the chunk without a number went there.
    assert!(storage.get_image(2).is_none());
    storage.process_command(b"i=2;dCQQ==");
    assert_eq!(storage.get_image(2).unwrap().render_image.pixels, b"RGBA");
}

#[test]
fn image_is_replaced() {
    let mut storage = ImageStorage::new();
    storage.process_command(&payload("f=32,s=1,v=1,i=1", b"aaaa"));
    storage.process_command(&payload("f=32,s=1,v=1,i=1", b"bbbb"));
    assert_eq!(storage.get_image(1).unwrap().render_image.pixels, b"bbbb");
    assert_eq!(storage.placements.len(), 2);
    storage.process_command(b"f=32,s=1,v=1,i=1;*");
    assert_eq!(storage.get_image(1).unwrap().render_image.pixels, b"bbbb");
}

#[test]
fn deletion() {
    let mut storage = ImageStorage::new();
    storage.process_command(&payload("f=32,s=1,v=1,i=1", b"aaaa"));
    storage.process_command(&payload("f=32,s=1,v=1,i=2", b"bbbb"));
    assert_eq!(storage.process_command(b"a=d,d=i,i=1"), None);
    assert!(storage.get_image(1).is_none());
    assert!(storage.get_image(2).is_some());
    assert!(!storage.had_delete);

    storage.process_command(b"a=d,d=x");
    assert!(!storage.has_images());
    assert!(!storage.had_delete);

    storage.process_command(b"f=32,s=1,v=1,i=3,m=1;cmdi");
    assert_eq!(storage.process_command(b"a=d,d=A"), None);
    assert!(storage.had_delete);
    assert_eq!(storage.placements.len(), 2);
    // The transfer is gone, too.
    assert_eq!(
        storage.process_command(b"f=32,s=1,v=1,i=3;YQ=="),
        Some(b"\x1b_Gi=3;EDATA\x1b\\".to_vec())
    );
}

#[test]
fn deletion_twice_is_deletion_once() {
    for what in [&b"d=a"[..], b"d=i,i=1", b"d=x"] {
        let params = KittyParams::parse(what);
        let mut storage = ImageStorage::new();
        storage.process_command(&payload("f=32,s=1,v=1,i=1", b"aaaa"));
        storage.process_command(&payload("f=32,s=1,v=1,i=2", b"bbbb"));
        storage.handle_delete(&params);
        let once = (storage.get_image(2).is_some(), storage.had_delete, storage.placements.len());
        storage.handle_delete(&params);
        let twice = (storage.get_image(2).is_some(), storage.had_delete, storage.placements.len());
        assert_eq!(once, twice);
        assert!(storage.get_image(1).is_none());
    }
}

#[test]
fn unknown_actions_do_nothing() {
    let mut storage = ImageStorage::new();
    assert_eq!(storage.process_command(b"a=p,i=1"), None);
    assert_eq!(storage.process_command(b"a=f,i=1;QUJD"), None);
    assert!(!storage.has_images());
    assert!(storage.placements.is_empty());
}

#[test]
fn answers_are_commands() {
    let mut storage = ImageStorage::new();
    let resp = storage.process_command(b"a=q,i=4294967295").unwrap();
    let mut pending = Vec::new();
    let (filtered, apcs) = extract_kitty_apc_buffered(&resp, &mut pending);
    assert!(filtered.is_empty());
    assert_eq!(apcs, vec![b"i=4294967295;OK".to_vec()]);
    assert_eq!(KittyParams::parse(b"i=4294967295").image_id, u32::MAX);
}

#[test]
fn error_words() {
    assert_eq!(TransferError::Base64.code(), b"EBASD64");
    assert_eq!(TransferError::Png.code(), b"EPNG");
    assert_eq!(TransferError::Dimensions.code(), b"EDIM");
    assert_eq!(TransferError::Data.code(), b"EDATA");
    assert_eq!(TransferError::Format.code(), b"EFMT");
}
