use divoom_ditoo_pro_controller::protocol::video::{find_audio_sink, rgbx_to_rgb};

#[test]
fn rgbx_drops_the_fourth_byte() {
    let mut buffer = [0u8; 1024];
    for (i, b) in buffer.iter_mut().enumerate() {
        *b = (i % 251) as u8;
    }
    let rgb = rgbx_to_rgb(&buffer);
    for i in 0..256 {
        assert_eq!(rgb[i * 3], buffer[i * 4]);
        assert_eq!(rgb[i * 3 + 1], buffer[i * 4 + 1]);
        assert_eq!(rgb[i * 3 + 2], buffer[i * 4 + 2]);
    }
    assert_eq!(&rgb[0..6], &[0, 1, 2, 4, 5, 6]);
}

#[test]
fn audio_sink_of_the_device() {
    let names = vec![
        Some("alsa/default".to_string()),
        None,
        Some("pipewire/bluez_output.B1_21_81_DD_B8_9B.1".to_string()),
        Some("pulse/bluez_sink.B1_21_81_DD_B8_9B.a2dp".to_string()),
    ];
    assert_eq!(find_audio_sink(&names, "B1:21:81:DD:B8:9B"), Some(2));
    assert_eq!(find_audio_sink(&names, "00:11:22:33:44:55"), None);
    assert_eq!(find_audio_sink(&[], "B1:21:81:DD:B8:9B"), None);
}

#[test]
fn audio_sink_needs_underscores() {
    let names = vec![Some("bluez B1:21:81:DD:B8:9B".to_string())];
    assert_eq!(find_audio_sink(&names, "B1:21:81:DD:B8:9B"), None);
    let names = vec![None, Some("x_B1_21_81_DD_B8_9B".to_string())];
    assert_eq!(find_audio_sink(&names, "B1:21:81:DD:B8:9B"), Some(1));
}
