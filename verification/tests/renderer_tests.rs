use cortana::renderer::{kitty_command_for, kitty_payload, RendererBackend};

#[test]
fn backend_from_string_maps_correctly() {
    assert_eq!(RendererBackend::from_str("kitty"), RendererBackend::Kitty);
    assert_eq!(RendererBackend::from_str("sixel"), RendererBackend::Sixel);
    assert_eq!(RendererBackend::from_str("canvas"), RendererBackend::Canvas);
    assert_eq!(
        RendererBackend::from_str("unknown"),
        RendererBackend::Canvas
    );
}

#[test]
fn kitty_window_selects_kitty_backend() {
    assert_eq!(RendererBackend::for_terminal(true), RendererBackend::Kitty);
    assert_eq!(RendererBackend::for_terminal(false), RendererBackend::Canvas);
}

#[test]
fn kitty_payload_carries_base64_pixels() {
    let p = kitty_payload(1, 1, 3, 4, &[1, 2, 3, 4]);
    assert_eq!(p, "\x1b_Ga=t,f=32,s=1,v=1,c=3,r=4;AQIDBA==\x1b\\");
}

#[test]
fn kitty_command_frames_encoded_image() {
    assert_eq!(
        kitty_command_for(144, 200, 0, 0, "QUJD"),
        "\x1b_Ga=t,f=32,s=144,v=200,c=0,r=0;QUJD\x1b\\"
    );
}
