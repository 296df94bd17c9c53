use base64::Engine;
use chonker::kitty_graphics::{
    block_rows, clear_sequence, image_command, image_frame, image_protocol, ChannelLayout, ImageProtocol, Picture, RgbaImage,
};

fn picture(width: u32, height: u32, rgb: &[(u8, u8, u8)]) -> RgbaImage {
    let mut pixels = Vec::new();
    for &(r, g, b) in rgb {
        pixels.extend_from_slice(&[r, g, b, 255]);
    }
    RgbaImage { width, height, pixels }
}

#[test]
fn protocol_from_terminal() {
    assert_eq!(image_protocol(true, ""), ImageProtocol::Kitty);
    assert_eq!(image_protocol(false, "ghostty"), ImageProtocol::Kitty);
    assert_eq!(image_protocol(false, "iTerm.app"), ImageProtocol::ITerm2);
    assert_eq!(image_protocol(false, "WezTerm"), ImageProtocol::ITerm2);
    assert_eq!(image_protocol(false, "xterm-256color"), ImageProtocol::Blocks);
}

#[test]
fn clear_sequences() {
    assert_eq!(clear_sequence(ImageProtocol::Kitty), "\x1b_Ga=d\x1b\\");
    assert_eq!(clear_sequence(ImageProtocol::ITerm2), "");
    assert_eq!(clear_sequence(ImageProtocol::Blocks), "");
}

#[test]
fn blocks_of_white_square() {
    let img = picture(2, 2, &[(255, 255, 255); 4]);
    assert_eq!(block_rows(&img, 10, 10), vec!["\x1b[38;2;255;255;255m█\x1b[0m".to_string()]);
}

#[test]
fn blocks_quarters_and_average() {
    let b = (0, 0, 0);
    let w = (200, 200, 200);
    // Row 0: b b w b ; row 1: b b b b
    let img = picture(4, 2, &[b, b, w, b, b, b, b, b]);
    assert_eq!(
        block_rows(&img, 10, 10),
        vec!["\x1b[38;2;0;0;0m \x1b[38;2;50;50;50m▘\x1b[0m".to_string()]
    );
    assert_eq!(block_rows(&img, 1, 10), vec!["\x1b[38;2;0;0;0m \x1b[0m".to_string()]);
    assert!(block_rows(&img, 10, 0).is_empty());
}

#[test]
fn image_frames() {
    assert_eq!(image_frame(3, 2, "QUJD", true), "\x1b_Ga=T,t=d,f=100,s=3,v=2;QUJD\x1b\\");
    assert_eq!(
        image_frame(3, 2, "QUJD", false),
        "\x1b]1337;File=inline=1;width=3;height=2;preserveAspectRatio=1:QUJD\x07"
    );
}

#[test]
fn image_command_sends_png_in_base64() {
    let img = Picture { width: 1, height: 1, layout: ChannelLayout::Rgba8, samples8: vec![10, 20, 30, 255], samples16: vec![] };
    let kitty = image_command(&img, true).unwrap();
    assert!(kitty.starts_with("\x1b_Ga=T,t=d,f=100,s=1,v=1;iVBORw0KGgo"));
    assert!(kitty.ends_with("\x1b\\"));
    let iterm = image_command(&img, false).unwrap();
    assert!(iterm.starts_with("\x1b]1337;File=inline=1;width=1;height=1;preserveAspectRatio=1:iVBORw0KGgo"));
}

/// The PNG file inside a Kitty command, decoded.
fn png_in(command: &str) -> Vec<u8> {
    let start = command.find(';').unwrap() + 1;
    let end = command.len() - 2;
    base64::engine::general_purpose::STANDARD.decode(&command[start..end]).unwrap()
}

#[test]
fn png_keeps_the_pictures_own_layout() {
    let grey = Picture { width: 2, height: 1, layout: ChannelLayout::L8, samples8: vec![0, 200], samples16: vec![] };
    let png = png_in(&image_command(&grey, true).unwrap());
    assert_eq!(&png[12..16], b"IHDR");
    assert_eq!((png[24], png[25]), (8, 0));
    let deep = Picture { width: 1, height: 1, layout: ChannelLayout::Rgb16, samples8: vec![], samples16: vec![1000, 2000, 65535] };
    let png = png_in(&image_command(&deep, true).unwrap());
    assert_eq!((png[24], png[25]), (16, 2));
    let rgba = Picture { width: 1, height: 1, layout: ChannelLayout::Rgba8, samples8: vec![1, 2, 3, 4], samples16: vec![] };
    let png = png_in(&image_command(&rgba, true).unwrap());
    assert_eq!((png[24], png[25]), (8, 6));
}
