use vj_copilot::audio_input::{
    capture_buffer_capacity, check_stream_config, sorted_unique, AudioBackend, AudioInputError,
    AudioSource, CaptureRejection, InputState, InputStatus, PcmFormat,
};

fn strings(names: &[&str]) -> Vec<String> {
    names.iter().map(|name| name.to_string()).collect()
}

#[test]
fn describes_each_status() {
    assert_eq!(
        InputStatus::Capturing {
            device_name: "Mic".to_owned(),
            sample_rate: 48_000
        }
        .message(),
        "入力中: Mic (48000 Hz)"
    );
    assert_eq!(InputStatus::Ready.message(), "入力デバイスを選択して開始できます");
    assert_eq!(InputStatus::Stopped.message(), "入力を停止しています");
    assert_eq!(InputStatus::NoDevice.message(), "入力デバイスが見つかりません");
    assert_eq!(InputStatus::Error("boom".to_owned()).message(), "boom");
}

#[test]
fn only_asio_is_asio() {
    assert!(AudioBackend::Asio.is_asio());
    assert!(!AudioBackend::System.is_asio());
}

#[test]
fn rejects_unusable_stream_configurations() {
    assert!(check_stream_config(2, 0, false, PcmFormat::F32, "F32").is_ok());
    let many = check_stream_config(6, 0, false, PcmFormat::I16, "I16").unwrap_err();
    assert_eq!(
        many.message(),
        "6 チャンネル入力は未対応です。mono または stereo を選んでください"
    );
    assert!(check_stream_config(6, 4, true, PcmFormat::I32, "I32").is_ok());
    let beyond = check_stream_config(4, 4, true, PcmFormat::I32, "I32").unwrap_err();
    assert_eq!(
        beyond.message(),
        "入力 ch 5 は範囲外です。この機器の入力は 4 ch です。"
    );
    let format = check_stream_config(1, 0, false, PcmFormat::Other, "U8").unwrap_err();
    assert_eq!(
        format.message(),
        "U8 PCM は未対応です。f32、f64、i16、i32、u16 の入力を選んでください"
    );
    assert!(matches!(
        check_stream_config(0, 0, true, PcmFormat::F32, "F32"),
        Err(CaptureRejection::ChannelCount { channels: 0 })
    ));
}

#[test]
fn buffers_a_quarter_second_within_limits() {
    assert_eq!(capture_buffer_capacity(48_000), 12_000);
    assert_eq!(capture_buffer_capacity(8_000), 2_000);
    assert_eq!(capture_buffer_capacity(1_000), 1_024);
    assert_eq!(capture_buffer_capacity(384_000), 48_000);
    assert_eq!(capture_buffer_capacity(u32::MAX), 48_000);
}

#[test]
fn sorts_device_names_once_each() {
    let sorted = sorted_unique(&strings(&["b", "a", "c", "a", "b"]));
    assert_eq!(sorted, strings(&["a", "b", "c"]));
}

#[test]
fn keeps_a_listed_selection_and_otherwise_prefers_the_default() {
    let mut input = InputState::new(AudioSource::LineInput);
    input.apply_device_list(Ok(strings(&["Mic", "Line"])), Some("Mic".to_owned()));
    assert_eq!(input.device_names(), &strings(&["Line", "Mic"])[..]);
    assert_eq!(input.selected_device(), Some("Mic"));
    assert!(matches!(input.status(), InputStatus::Ready));

    input.select_device(Some("Line".to_owned()));
    input.apply_device_list(Ok(strings(&["Mic", "Line"])), Some("Mic".to_owned()));
    assert_eq!(input.selected_device(), Some("Line"));

    input.apply_device_list(Ok(strings(&["Other", "Mic"])), None);
    assert_eq!(input.selected_device(), Some("Mic"));

    input.apply_device_list(Ok(Vec::new()), None);
    assert_eq!(input.selected_device(), None);
    assert!(matches!(input.status(), InputStatus::NoDevice));

    input.apply_device_list(Err("denied".to_owned()), None);
    assert_eq!(input.status().message(), "入力デバイスを列挙できません: denied");
}

#[test]
fn stopping_keeps_a_missing_device_or_an_error_visible() {
    let mut input = InputState::new(AudioSource::LineInput);
    input.apply_device_list(Ok(strings(&["Mic"])), None);
    assert_eq!(input.start_requested(), Some("Mic".to_owned()));
    input.start_succeeded(44_100);
    assert!(input.is_capturing());
    input.stop();
    assert!(!input.is_capturing());
    assert!(matches!(input.status(), InputStatus::Stopped));

    input.stream_failed(Some("unplugged".to_owned()));
    assert_eq!(input.status().message(), "入力ストリームエラー: unplugged");
    input.stop();
    assert!(matches!(input.status(), InputStatus::Error(_)));
}

#[test]
fn an_unusable_stream_shows_as_unsupported() {
    let mut input = InputState::new(AudioSource::LineInput);
    input.start_failed(AudioInputError::UnsupportedInput(
        CaptureRejection::ChannelCount { channels: 3 },
    ));
    assert!(matches!(input.status(), InputStatus::Unsupported(_)));
    input.start_failed(AudioInputError::SelectedDeviceMissing);
    assert_eq!(input.status().message(), "選択した入力デバイスが見つかりません");
}

#[test]
fn asio_has_no_loopback_and_restarts_on_the_line_input() {
    let mut input = InputState::new(AudioSource::SystemPlayback);
    assert!(input.supports_loopback());
    input.select_first_channel(3);
    assert_eq!(input.first_channel(), 3);
    assert!(input.select_backend(AudioBackend::Asio, Ok(())));
    assert_eq!(input.source(), AudioSource::LineInput);
    assert_eq!(input.first_channel(), 1);
    assert!(!input.supports_loopback());
    assert!(!input.select_source(AudioSource::SystemPlayback));
    assert!(input.select_backend(AudioBackend::System, Ok(())));
    assert_eq!(input.source(), AudioSource::SystemPlayback);
    assert!(!input.select_backend(AudioBackend::Asio, Err("no driver".to_owned())));
    assert_eq!(input.status().message(), "ASIO を初期化できません: no driver");
    assert_eq!(input.backend(), AudioBackend::System);
}

#[test]
fn changing_the_source_forgets_the_selected_device() {
    let mut input = InputState::new(AudioSource::LineInput);
    input.apply_device_list(Ok(strings(&["Mic"])), None);
    assert!(input.select_source(AudioSource::SystemPlayback));
    assert_eq!(input.selected_device(), None);
    assert!(!input.select_source(AudioSource::SystemPlayback));
    input.select_first_channel(0);
    assert_eq!(input.first_channel(), 1);
}

#[test]
fn starting_captures_the_selected_device_or_reports_why_not() {
    let mut input = InputState::new(AudioSource::LineInput);
    assert_eq!(input.start_requested(), None);
    assert!(!input.is_capturing());
    assert_eq!(input.status().message(), "選択した入力デバイスが見つかりません");

    input.apply_device_list(Ok(strings(&["Line", "Mic"])), Some("Mic".to_owned()));
    assert_eq!(input.start_requested(), Some("Mic".to_owned()));
    input.start_succeeded(48_000);
    assert!(input.is_capturing());
    match input.status() {
        InputStatus::Capturing { device_name, sample_rate } => {
            assert_eq!(device_name, "Mic");
            assert_eq!(*sample_rate, 48_000);
        }
        other => panic!("unexpected status {other:?}"),
    }

    assert_eq!(input.start_requested(), Some("Mic".to_owned()));
    assert!(!input.is_capturing());
    input.start_failed(AudioInputError::BuildStream("busy".to_owned()));
    assert!(!input.is_capturing());
    assert_eq!(input.status().message(), "入力ストリームを作成できません: busy");
    assert_eq!(input.selected_device(), Some("Mic"));
}
