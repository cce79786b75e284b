use vstd::prelude::*;

use crate::text::{
    decimal, decimal_string, join_str, lemma_seq_less_total, lemma_seq_less_transitive, seq_less,
    str_eq, str_less, string_views,
};

verus! {

/// The audio system that captures input.
#[derive(Clone, Copy, Debug, PartialEq, Eq, Structural)]
pub enum AudioBackend {
    /// The platform's own audio system.
    System,
    /// An ASIO driver.
    Asio,
}

impl AudioBackend {
    /// Whether this is the ASIO backend.
    pub fn is_asio(self) -> (r: bool)
        ensures
            r == (self == AudioBackend::Asio),
    {
        match self {
            AudioBackend::System => false,
            AudioBackend::Asio => true,
        }
    }
}

/// Where the captured audio comes from.
#[derive(Clone, Copy, Debug, PartialEq, Eq, Structural)]
pub enum AudioSource {
    /// A line or microphone input.
    LineInput,
    /// What the computer plays, captured by loopback.
    SystemPlayback,
}

/// The state of audio input, as the user sees it.
#[derive(Clone, Debug)]
pub enum InputStatus {
    Ready,
    Capturing { device_name: String, sample_rate: u32 },
    Stopped,
    NoDevice,
    Unsupported(String),
    Error(String),
}

/// An input status by its plain values.
pub enum StatusView {
    Ready,
    Capturing { device_name: Seq<char>, sample_rate: u32 },
    Stopped,
    NoDevice,
    Unsupported(Seq<char>),
    Error(Seq<char>),
}

impl View for InputStatus {
    type V = StatusView;

    open spec fn view(&self) -> StatusView {
        match self {
            InputStatus::Ready => StatusView::Ready,
            InputStatus::Capturing { device_name, sample_rate } => StatusView::Capturing {
                device_name: device_name@,
                sample_rate: *sample_rate,
            },
            InputStatus::Stopped => StatusView::Stopped,
            InputStatus::NoDevice => StatusView::NoDevice,
            InputStatus::Unsupported(message) => StatusView::Unsupported(message@),
            InputStatus::Error(message) => StatusView::Error(message@),
        }
    }
}

/// The text that describes a status.
pub open spec fn status_message(status: StatusView) -> Seq<char> {
    match status {
        StatusView::Ready => "入力デバイスを選択して開始できます"@,
        StatusView::Capturing { device_name, sample_rate } => "入力中: "@ + device_name + " ("@
            + decimal(sample_rate as nat) + " Hz)"@,
        StatusView::Stopped => "入力を停止しています"@,
        StatusView::NoDevice => "入力デバイスが見つかりません"@,
        StatusView::Unsupported(message) => message,
        StatusView::Error(message) => message,
    }
}

impl InputStatus {
    /// The text that describes this status.
    pub fn message(&self) -> (text: String)
        ensures
            text@ == status_message(self@),
    {
        match self {
            InputStatus::Ready => "入力デバイスを選択して開始できます".to_owned(),
            InputStatus::Capturing { device_name, sample_rate } => {
                let rate = decimal_string(*sample_rate as u64);
                let head = join_str("入力中: ", device_name.as_str());
                let head = join_str(head.as_str(), " (");
                let head = join_str(head.as_str(), rate.as_str());
                join_str(head.as_str(), " Hz)")
            },
            InputStatus::Stopped => "入力を停止しています".to_owned(),
            InputStatus::NoDevice => "入力デバイスが見つかりません".to_owned(),
            InputStatus::Unsupported(message) => message.clone(),
            InputStatus::Error(message) => message.clone(),
        }
    }
}

/// The sample format of a PCM stream.
#[derive(Clone, Copy, Debug, PartialEq, Eq, Structural)]
pub enum PcmFormat {
    F32,
    F64,
    I16,
    I32,
    U16,
    /// Any other format; it cannot be captured.
    Other,
}

/// Why a stream's configuration cannot be captured.
#[derive(Clone, Debug)]
pub enum CaptureRejection {
    /// The stream has no channels, or more than two where only mono and stereo work.
    ChannelCount { channels: usize },
    /// The first channel to read (counted from 1) is beyond the stream's channels.
    ChannelOutOfRange { channel: usize, channels: usize },
    /// The sample format, named `format`, is not one that can be read.
    SampleFormat { format: String },
}

/// A capture rejection by its plain values.
pub enum RejectionView {
    ChannelCount { channels: usize },
    ChannelOutOfRange { channel: usize, channels: usize },
    SampleFormat { format: Seq<char> },
}

impl View for CaptureRejection {
    type V = RejectionView;

    open spec fn view(&self) -> RejectionView {
        match self {
            CaptureRejection::ChannelCount { channels } => RejectionView::ChannelCount {
                channels: *channels,
            },
            CaptureRejection::ChannelOutOfRange { channel, channels } =>
                RejectionView::ChannelOutOfRange { channel: *channel, channels: *channels },
            CaptureRejection::SampleFormat { format } => RejectionView::SampleFormat {
                format: format@,
            },
        }
    }
}

/// The text that describes a rejection.
pub open spec fn rejection_message(rejection: RejectionView) -> Seq<char> {
    match rejection {
        RejectionView::ChannelCount { channels } => decimal(channels as nat)
            + " チャンネル入力は未対応です。mono または stereo を選んでください"@,
        RejectionView::ChannelOutOfRange { channel, channels } => "入力 ch "@ + decimal(
            channel as nat,
        ) + " は範囲外です。この機器の入力は "@ + decimal(channels as nat) + " ch です。"@,
        RejectionView::SampleFormat { format } => format
            + " PCM は未対応です。f32、f64、i16、i32、u16 の入力を選んでください"@,
    }
}

impl CaptureRejection {
    /// The text that describes this rejection.
    pub fn message(&self) -> (text: String)
        ensures
            text@ == rejection_message(self@),
    {
        match self {
            CaptureRejection::ChannelCount { channels } => {
                let count = decimal_string(*channels as u64);
                join_str(count.as_str(), " チャンネル入力は未対応です。mono または stereo を選んでください")
            },
            CaptureRejection::ChannelOutOfRange { channel, channels } => {
                let first = decimal_string(*channel as u64);
                let count = decimal_string(*channels as u64);
                let text = join_str("入力 ch ", first.as_str());
                let text = join_str(text.as_str(), " は範囲外です。この機器の入力は ");
                let text = join_str(text.as_str(), count.as_str());
                join_str(text.as_str(), " ch です。")
            },
            CaptureRejection::SampleFormat { format } => {
                join_str(format.as_str(), " PCM は未対応です。f32、f64、i16、i32、u16 の入力を選んでください")
            },
        }
    }
}

/// Whether a stream can be captured, and if not, why: it needs one channel or more, at
/// most two unless the backend is ASIO, a first channel (counted from 0) within them,
/// and a sample format that can be read.
pub open spec fn stream_config_check(
    channels: usize,
    first_channel: usize,
    is_asio: bool,
    format: PcmFormat,
) -> Option<RejectionView> {
    if channels == 0 || (!is_asio && channels > 2) {
        Some(RejectionView::ChannelCount { channels })
    } else if first_channel >= channels {
        Some(RejectionView::ChannelOutOfRange { channel: (first_channel + 1) as usize, channels })
    } else if format == PcmFormat::Other {
        Some(RejectionView::SampleFormat { format: Seq::empty() })
    } else {
        None
    }
}

/// Every stream with one channel or more (at most two unless the backend is ASIO), a first
/// channel among its channels (the last one included, which is then read as mono) and a
/// readable sample format is accepted; a stream that misses one of these is refused.
pub proof fn lemma_usable_streams_are_accepted(
    channels: usize,
    first_channel: usize,
    is_asio: bool,
    format: PcmFormat,
)
    ensures
        (1 <= channels && (is_asio || channels <= 2) && first_channel < channels && format
            != PcmFormat::Other) <==> stream_config_check(
            channels,
            first_channel,
            is_asio,
            format,
        ) is None,
        (channels >= 1 && first_channel + 1 == channels && (is_asio || channels <= 2) && format
            != PcmFormat::Other) ==> stream_config_check(channels, first_channel, is_asio, format)
            is None,
{
}

/// Checks whether a stream with `channels` channels and sample format `format` (named
/// `format_name`) can be captured from channel `first_channel` (counted from 0).
pub fn check_stream_config(
    channels: usize,
    first_channel: usize,
    is_asio: bool,
    format: PcmFormat,
    format_name: &str,
) -> (r: Result<(), CaptureRejection>)
    requires
        first_channel < usize::MAX,
    ensures
        match (r, stream_config_check(channels, first_channel, is_asio, format)) {
            (Ok(()), None) => true,
            (Err(rejection), Some(expected)) => match (rejection@, expected) {
                (RejectionView::SampleFormat { format: f }, RejectionView::SampleFormat { .. }) =>
                    f == format_name@,
                (got, expected) => got == expected,
            },
            _ => false,
        },
{
    if channels == 0 || (!is_asio && channels > 2) {
        Err(CaptureRejection::ChannelCount { channels })
    } else if first_channel >= channels {
        Err(CaptureRejection::ChannelOutOfRange { channel: first_channel + 1, channels })
    } else if format == PcmFormat::Other {
        Err(CaptureRejection::SampleFormat { format: format_name.to_owned() })
    } else {
        Ok(())
    }
}

/// How many milliseconds of samples wait for analysis at most.
pub const MAX_BUFFERED_MILLISECONDS: usize = 250;

/// How many samples the capture buffer holds: a quarter second at `sample_rate`, but no
/// fewer than 1024 and no more than 48000.
pub open spec fn buffer_capacity(sample_rate: u32) -> int {
    let product = sample_rate * MAX_BUFFERED_MILLISECONDS;
    let saturated = if product > usize::MAX {
        usize::MAX as int
    } else {
        product
    };
    let quarter = saturated / 1000;
    if quarter < 1024 {
        1024
    } else if quarter > 48000 {
        48000
    } else {
        quarter
    }
}

/// How many samples the capture buffer holds at `sample_rate`.
pub fn capture_buffer_capacity(sample_rate: u32) -> (capacity: usize)
    ensures
        capacity == buffer_capacity(sample_rate),
        1024 <= capacity <= 48000,
{
    let rate = sample_rate as usize;
    let product = if rate > usize::MAX / MAX_BUFFERED_MILLISECONDS {
        usize::MAX
    } else {
        rate * MAX_BUFFERED_MILLISECONDS
    };
    let quarter = product / 1000;
    if quarter < 1024 {
        1024
    } else if quarter > 48000 {
        48000
    } else {
        quarter
    }
}

/// Why starting capture failed. The texts are those of the audio system's errors.
#[derive(Clone, Debug)]
pub enum AudioInputError {
    Enumerate(String),
    SelectedDeviceMissing,
    DeviceName(String),
    DefaultConfig(String),
    BuildStream(String),
    PlayStream(String),
    UnsupportedInput(CaptureRejection),
}

/// The text that describes a failure to start capture.
pub open spec fn input_error_message(error: AudioInputError) -> Seq<char> {
    match error {
        AudioInputError::Enumerate(e) => "入力デバイスを列挙できません: "@ + e@,
        AudioInputError::SelectedDeviceMissing => "選択した入力デバイスが見つかりません"@,
        AudioInputError::DeviceName(e) => "入力デバイス名を取得できません: "@ + e@,
        AudioInputError::DefaultConfig(e) => "既定の入力設定を取得できません: "@ + e@,
        AudioInputError::BuildStream(e) => "入力ストリームを作成できません: "@ + e@,
        AudioInputError::PlayStream(e) => "入力ストリームを開始できません: "@ + e@,
        AudioInputError::UnsupportedInput(rejection) => rejection_message(rejection@),
    }
}

impl AudioInputError {
    /// The text that describes this failure.
    pub fn message(&self) -> (text: String)
        ensures
            text@ == input_error_message(*self),
    {
        match self {
            AudioInputError::Enumerate(e) => join_str("入力デバイスを列挙できません: ", e.as_str()),
            AudioInputError::SelectedDeviceMissing => "選択した入力デバイスが見つかりません".to_owned(),
            AudioInputError::DeviceName(e) => join_str("入力デバイス名を取得できません: ", e.as_str()),
            AudioInputError::DefaultConfig(e) => join_str("既定の入力設定を取得できません: ", e.as_str()),
            AudioInputError::BuildStream(e) => join_str("入力ストリームを作成できません: ", e.as_str()),
            AudioInputError::PlayStream(e) => join_str("入力ストリームを開始できません: ", e.as_str()),
            AudioInputError::UnsupportedInput(rejection) => rejection.message(),
        }
    }
}

/// `names` is in strictly increasing order, so no name occurs twice.
pub open spec fn strictly_sorted(names: Seq<Seq<char>>) -> bool {
    forall|k: int, l: int|
        0 <= k < l < names.len() ==> seq_less(#[trigger] names[k], #[trigger] names[l])
}

/// The names of `names`, sorted, each once.
pub fn sorted_unique(names: &[String]) -> (out: Vec<String>)
    ensures
        strictly_sorted(string_views(out@)),
        forall|x: Seq<char>| #[trigger]
            string_views(out@).contains(x) <==> string_views(names@).contains(x),
{
    let ghost input = string_views(names@);
    let mut out: Vec<String> = Vec::new();
    let mut i: usize = 0;
    while i < names.len()
        invariant
            i <= names@.len(),
            input == string_views(names@),
            strictly_sorted(string_views(out@)),
            forall|x: Seq<char>| #[trigger]
                string_views(out@).contains(x) <==> input.take(i as int).contains(x),
        decreases names.len() - i,
    {
        let name = &names[i];
        let ghost v = string_views(out@);
        let ghost prev = input.take(i as int);
        let ghost upto = input.take(i + 1);
        assert(input[i as int] == name@);
        let mut pos: usize = 0;
        while pos < out.len() && str_less(out[pos].as_str(), name.as_str())
            invariant
                pos <= out@.len(),
                v == string_views(out@),
                forall|k: int| 0 <= k < pos ==> seq_less(#[trigger] v[k], name@),
            decreases out.len() - pos,
        {
            assert(v[pos as int] == out@[pos as int]@);
            pos = pos + 1;
        }
        let present = pos < out.len() && str_eq(out[pos].as_str(), name.as_str());
        proof {
            assert(upto =~= prev.push(name@));
            if pos < out.len() {
                assert(v[pos as int] == out@[pos as int]@);
            }
        }
        if !present {
            let copy = name.clone();
            out.insert(pos, copy);
            proof {
                let w = string_views(out@);
                assert(w =~= v.subrange(0, pos as int).push(name@) + v.subrange(
                    pos as int,
                    v.len() as int,
                ));
                if pos < v.len() {
                    lemma_seq_less_total(v[pos as int], name@);
                }
                assert forall|k: int, l: int| 0 <= k < l < w.len() implies seq_less(
                    #[trigger] w[k],
                    #[trigger] w[l],
                ) by {
                    if k < pos && l < pos {
                        assert(w[k] == v[k] && w[l] == v[l]);
                    } else if k < pos && l == pos {
                    } else if k < pos {
                        assert(w[k] == v[k] && w[l] == v[l - 1]);
                    } else if k == pos {
                        assert(w[l] == v[l - 1]);
                        if l - 1 > pos {
                            lemma_seq_less_transitive(name@, v[pos as int], v[l - 1]);
                        }
                    } else {
                        assert(w[k] == v[k - 1] && w[l] == v[l - 1]);
                    }
                }
                assert forall|x: Seq<char>| #[trigger] w.contains(x) <==> upto.contains(x) by {
                    if w.contains(x) {
                        let k = choose|k: int| 0 <= k < w.len() && w[k] == x;
                        if k < pos {
                            assert(v[k] == x);
                            assert(v.contains(x));
                        } else if k > pos {
                            assert(v[k - 1] == x);
                            assert(v.contains(x));
                        }
                        if x != name@ {
                            assert(prev.contains(x));
                            let m = choose|m: int| 0 <= m < i && prev[m] == x;
                            assert(upto[m] == x);
                        } else {
                            assert(upto[i as int] == x);
                        }
                    }
                    if upto.contains(x) {
                        let m = choose|m: int| 0 <= m < i + 1 && upto[m] == x;
                        if m < i {
                            assert(prev[m] == x);
                            assert(v.contains(x));
                            let k = choose|k: int| 0 <= k < v.len() && v[k] == x;
                            if k < pos {
                                assert(w[k] == x);
                            } else {
                                assert(w[k + 1] == x);
                            }
                        } else {
                            assert(w[pos as int] == x);
                        }
                    }
                }
            }
        } else {
            proof {
                assert forall|x: Seq<char>| #[trigger] v.contains(x) <==> upto.contains(x) by {
                    if upto.contains(x) {
                        let m = choose|m: int| 0 <= m < i + 1 && upto[m] == x;
                        if m < i {
                            assert(prev[m] == x);
                        } else {
                            assert(v[pos as int] == x);
                        }
                    }
                    if v.contains(x) {
                        assert(prev.contains(x));
                        let m = choose|m: int| 0 <= m < i && prev[m] == x;
                        assert(upto[m] == x);
                    }
                }
            }
        }
        i = i + 1;
    }
    assert(input.take(names@.len() as int) =~= input);
    out
}

/// The part of audio input that the user chooses and sees: backend, source, devices,
/// the first channel to read, the status, and whether a stream is capturing.
#[derive(Debug)]
pub struct InputState {
    backend: AudioBackend,
    first_channel: usize,
    source: AudioSource,
    default_source: AudioSource,
    device_names: Vec<String>,
    selected_device: Option<String>,
    status: InputStatus,
    capturing: bool,
}

/// The input state by its plain values.
pub struct InputView {
    pub backend: AudioBackend,
    pub first_channel: usize,
    pub source: AudioSource,
    pub default_source: AudioSource,
    pub device_names: Seq<Seq<char>>,
    pub selected_device: Option<Seq<char>>,
    pub status: StatusView,
    pub capturing: bool,
}

/// A name by its characters, or none.
pub open spec fn name_view(name: Option<String>) -> Option<Seq<char>> {
    match name {
        Some(n) => Some(n@),
        None => None,
    }
}

/// The status after capture stops: a missing device or an error stays shown.
pub open spec fn status_after_stop(status: StatusView) -> StatusView {
    match status {
        StatusView::NoDevice => StatusView::NoDevice,
        StatusView::Error(message) => StatusView::Error(message),
        _ => StatusView::Stopped,
    }
}

/// The state after capture stops.
pub open spec fn stopped(v: InputView) -> InputView {
    InputView { capturing: false, status: status_after_stop(v.status), ..v }
}

/// The state after a start failed with `error`: an unusable stream shows as unsupported,
/// any other failure as an error.
pub open spec fn failed_start(v: InputView, error: AudioInputError) -> InputView {
    InputView {
        capturing: false,
        status: match error {
            AudioInputError::UnsupportedInput(_) => StatusView::Unsupported(
                input_error_message(error),
            ),
            _ => StatusView::Error(input_error_message(error)),
        },
        ..v
    }
}

/// The state after a stream started at `sample_rate` on the selected device; with no
/// device selected, the start fails for the missing device.
pub open spec fn started(v: InputView, sample_rate: u32) -> InputView {
    match v.selected_device {
        Some(device_name) => InputView {
            capturing: true,
            status: StatusView::Capturing { device_name, sample_rate },
            ..v
        },
        None => failed_start(v, AudioInputError::SelectedDeviceMissing),
    }
}

/// The state after asking to start: capture stops, and with no device selected the start
/// fails for the missing device at once.
pub open spec fn start_requested_state(v: InputView) -> InputView {
    if v.selected_device is Some {
        stopped(v)
    } else {
        failed_start(stopped(v), AudioInputError::SelectedDeviceMissing)
    }
}

/// The state after a whole start from `v`: capture stops; then, with a device selected,
/// `outcome` is what opening and playing its stream gave (the sample rate, or why it
/// failed); with none, the start fails for the missing device and `outcome` is never
/// asked for.
pub open spec fn start_result(v: InputView, outcome: Result<u32, AudioInputError>) -> InputView {
    let requested = start_requested_state(v);
    if v.selected_device is Some {
        match outcome {
            Ok(sample_rate) => started(requested, sample_rate),
            Err(error) => failed_start(requested, error),
        }
    } else {
        requested
    }
}

/// Starting capture ends capturing exactly when a device is selected and its stream
/// started; it then shows that device and the stream's sample rate. A failure shows as
/// unsupported exactly when the stream was unusable, else as an error. The choices (backend,
/// source, channel, devices, selected device) are kept.
pub proof fn lemma_start_status(v: InputView, outcome: Result<u32, AudioInputError>)
    ensures
        start_result(v, outcome).capturing == (v.selected_device is Some && outcome is Ok),
        v.selected_device matches Some(device_name) ==> (outcome matches Ok(sample_rate)
            ==> start_result(v, outcome).status == (StatusView::Capturing {
            device_name,
            sample_rate,
        })),
        v.selected_device is None ==> start_result(v, outcome).status == StatusView::Error(
            input_error_message(AudioInputError::SelectedDeviceMissing),
        ),
        v.selected_device is Some ==> (outcome matches Err(error) ==> start_result(
            v,
            outcome,
        ).status == if error is UnsupportedInput {
            StatusView::Unsupported(input_error_message(error))
        } else {
            StatusView::Error(input_error_message(error))
        }),
        start_result(v, outcome).backend == v.backend,
        start_result(v, outcome).source == v.source,
        start_result(v, outcome).first_channel == v.first_channel,
        start_result(v, outcome).device_names == v.device_names,
        start_result(v, outcome).selected_device == v.selected_device,
{
}

/// The device that stays selected after the device list is read: the one selected
/// before when it is still listed, else the system's default when listed, else the first.
pub open spec fn chosen_device(
    names: Seq<Seq<char>>,
    selected: Option<Seq<char>>,
    default_device: Option<Seq<char>>,
) -> Option<Seq<char>> {
    if selected is Some && names.contains(selected->0) {
        selected
    } else if default_device is Some && names.contains(default_device->0) {
        default_device
    } else if names.len() > 0 {
        Some(names[0])
    } else {
        None
    }
}

/// The selection after the device list is read: the previous selection while it is
/// listed; otherwise the system's default when that is listed, whether or not something
/// was selected before; otherwise the first listed name; with no names, none. Whatever is
/// chosen is listed.
pub proof fn lemma_device_choice(
    names: Seq<Seq<char>>,
    selected: Option<Seq<char>>,
    default_device: Option<Seq<char>>,
)
    ensures
        (selected matches Some(s) && names.contains(s)) ==> chosen_device(
            names,
            selected,
            default_device,
        ) == selected,
        !(selected matches Some(s) && names.contains(s)) ==> (default_device matches Some(d)
            ==> (names.contains(d) ==> chosen_device(names, selected, default_device)
            == default_device)),
        (!(selected matches Some(s) && names.contains(s)) && !(default_device matches Some(d)
            && names.contains(d)) && names.len() > 0) ==> chosen_device(
            names,
            selected,
            default_device,
        ) == Some(names[0]),
        names.len() == 0 ==> chosen_device(names, selected, default_device) is None,
        chosen_device(names, selected, default_device) matches Some(c) ==> names.contains(c),
{
    if names.len() > 0 {
        assert(names.contains(names[0]));
    }
}

impl View for InputState {
    type V = InputView;

    closed spec fn view(&self) -> InputView {
        InputView {
            backend: self.backend,
            first_channel: self.first_channel,
            source: self.source,
            default_source: self.default_source,
            device_names: string_views(self.device_names@),
            selected_device: name_view(self.selected_device),
            status: self.status@,
            capturing: self.capturing,
        }
    }
}

impl InputState {
    #[verifier::type_invariant]
    closed spec fn inv(self) -> bool {
        self.first_channel < usize::MAX
    }

    /// A stopped input on the system backend, with `default_source` as the source and no
    /// devices listed yet.
    pub fn new(default_source: AudioSource) -> (state: InputState)
        ensures
            state@ == (InputView {
                backend: AudioBackend::System,
                first_channel: 0,
                source: default_source,
                default_source,
                device_names: Seq::empty(),
                selected_device: None,
                status: StatusView::Stopped,
                capturing: false,
            }),
    {
        let state = InputState {
            backend: AudioBackend::System,
            first_channel: 0,
            source: default_source,
            default_source,
            device_names: Vec::new(),
            selected_device: None,
            status: InputStatus::Stopped,
            capturing: false,
        };
        assert(string_views(state.device_names@) =~= Seq::<Seq<char>>::empty());
        state
    }

    /// The listed device names, sorted.
    pub fn device_names(&self) -> (names: &[String])
        ensures
            string_views(names@) == self@.device_names,
    {
        self.device_names.as_slice()
    }

    pub fn source(&self) -> (source: AudioSource)
        ensures
            source == self@.source,
    {
        self.source
    }

    /// Whether the backend can capture what the computer plays.
    pub fn supports_loopback(&self) -> (r: bool)
        ensures
            r == (self@.backend != AudioBackend::Asio),
    {
        !self.backend.is_asio()
    }

    pub fn backend(&self) -> (backend: AudioBackend)
        ensures
            backend == self@.backend,
    {
        self.backend
    }

    /// The first channel to read, counted from 1.
    pub fn first_channel(&self) -> (channel: usize)
        ensures
            channel == self@.first_channel + 1,
    {
        proof {
            use_type_invariant(self);
        }
        self.first_channel + 1
    }

    /// Chooses the first channel to read, counted from 1 (0 counts as 1).
    pub fn select_first_channel(&mut self, channel: usize)
        ensures
            final(self)@ == (InputView {
                first_channel: if channel == 0 {
                    0
                } else {
                    (channel - 1) as usize
                },
                ..old(self)@
            }),
    {
        proof {
            use_type_invariant(&*self);
        }
        self.first_channel = if channel == 0 {
            0
        } else {
            channel - 1
        };
    }

    pub fn selected_device(&self) -> (name: Option<&str>)
        ensures
            match name {
                Some(n) => self@.selected_device == Some(n@),
                None => self@.selected_device is None,
            },
    {
        match &self.selected_device {
            Some(name) => Some(name.as_str()),
            None => None,
        }
    }

    pub fn select_device(&mut self, device_name: Option<String>)
        ensures
            final(self)@ == (InputView { selected_device: name_view(device_name), ..old(self)@ }),
    {
        proof {
            use_type_invariant(&*self);
        }
        self.selected_device = device_name;
    }

    pub fn status(&self) -> (status: &InputStatus)
        ensures
            status@ == self@.status,
    {
        &self.status
    }

    /// Whether a stream is capturing.
    pub fn is_capturing(&self) -> (r: bool)
        ensures
            r == self@.capturing,
    {
        self.capturing
    }

    /// Records that capture stopped.
    pub fn stop(&mut self)
        ensures
            final(self)@ == stopped(old(self)@),
    {
        proof {
            use_type_invariant(&*self);
        }
        self.capturing = false;
        let keep = match &self.status {
            InputStatus::NoDevice => true,
            InputStatus::Error(_) => true,
            _ => false,
        };
        if !keep {
            self.status = InputStatus::Stopped;
        }
    }

    /// Switches the source. Loopback is refused where the backend has none. A change
    /// stops capture and forgets the selected device; the result says whether the device
    /// list must be read again.
    pub fn select_source(&mut self, source: AudioSource) -> (changed: bool)
        ensures
            changed == (old(self)@.source != source && !(source == AudioSource::SystemPlayback
                && old(self)@.backend == AudioBackend::Asio)),
            changed ==> final(self)@ == (InputView {
                source,
                selected_device: None,
                ..stopped(old(self)@)
            }),
            !changed ==> final(self)@ == old(self)@,
    {
        proof {
            use_type_invariant(&*self);
        }
        if source == AudioSource::SystemPlayback && !self.supports_loopback() {
            return false;
        }
        if self.source != source {
            self.stop();
            self.source = source;
            self.selected_device = None;
            true
        } else {
            false
        }
    }

    /// Switches the backend, given whether the audio system for it could be opened (or
    /// why not). A change stops capture first. When the system opened, the source becomes
    /// the line input for ASIO or the default one otherwise, no device is selected and the
    /// first channel is reset; the result says whether the device list must be read again.
    /// When it failed, the status shows why.
    pub fn select_backend(&mut self, backend: AudioBackend, host: Result<(), String>) -> (changed:
        bool)
        ensures
            old(self)@.backend == backend ==> final(self)@ == old(self)@ && !changed,
            old(self)@.backend != backend ==> match host {
                Ok(()) => changed && final(self)@ == (InputView {
                    backend,
                    source: if backend == AudioBackend::Asio {
                        AudioSource::LineInput
                    } else {
                        old(self)@.default_source
                    },
                    selected_device: None,
                    first_channel: 0,
                    ..stopped(old(self)@)
                }),
                Err(e) => !changed && final(self)@ == (InputView {
                    status: StatusView::Error("ASIO を初期化できません: "@ + e@),
                    ..stopped(old(self)@)
                }),
            },
    {
        proof {
            use_type_invariant(&*self);
        }
        if self.backend == backend {
            return false;
        }
        self.stop();
        match host {
            Ok(()) => {
                self.backend = backend;
                self.source = if backend.is_asio() {
                    AudioSource::LineInput
                } else {
                    self.default_source
                };
                self.selected_device = None;
                self.first_channel = 0;
                true
            },
            Err(e) => {
                self.status = InputStatus::Error(join_str("ASIO を初期化できません: ", e.as_str()));
                false
            },
        }
    }

    /// Takes in the result of listing the devices of the source, and the name of the
    /// source's default device. The names are kept sorted, each once, and the selection
    /// moves to a listed device; the status says whether devices are ready, unless capture
    /// is running.
    pub fn apply_device_list(
        &mut self,
        listing: Result<Vec<String>, String>,
        default_device: Option<String>,
    )
        ensures
            match listing {
                Err(e) => final(self)@ == (InputView {
                    device_names: Seq::empty(),
                    selected_device: None,
                    status: StatusView::Error("入力デバイスを列挙できません: "@ + e@),
                    ..old(self)@
                }),
                Ok(names) => {
                    let listed = final(self)@.device_names;
                    &&& strictly_sorted(listed)
                    &&& forall|x: Seq<char>| #[trigger]
                        listed.contains(x) <==> string_views(names@).contains(x)
                    &&& final(self)@.selected_device == chosen_device(
                        listed,
                        old(self)@.selected_device,
                        name_view(default_device),
                    )
                    &&& final(self)@.status == if old(self)@.capturing {
                        old(self)@.status
                    } else if listed.len() == 0 {
                        StatusView::NoDevice
                    } else {
                        StatusView::Ready
                    }
                    &&& final(self)@ == (InputView {
                        device_names: listed,
                        selected_device: final(self)@.selected_device,
                        status: final(self)@.status,
                        ..old(self)@
                    })
                },
            },
    {
        proof {
            use_type_invariant(&*self);
        }
        match listing {
            Err(e) => {
                self.device_names = Vec::new();
                self.selected_device = None;
                self.status = InputStatus::Error(join_str("入力デバイスを列挙できません: ", e.as_str()));
                assert(string_views(self.device_names@) =~= Seq::<Seq<char>>::empty());
            },
            Ok(names) => {
                let listed = sorted_unique(names.as_slice());
                let ghost views = string_views(listed@);
                let keep = match &self.selected_device {
                    Some(current) => names_include(&listed, current.as_str()),
                    None => false,
                };
                if !keep {
                    let use_default = match &default_device {
                        Some(name) => names_include(&listed, name.as_str()),
                        None => false,
                    };
                    if use_default {
                        self.selected_device = default_device;
                    } else if listed.len() > 0 {
                        assert(views[0] == listed@[0]@);
                        self.selected_device = Some(listed[0].clone());
                    } else {
                        self.selected_device = None;
                    }
                }
                let empty = listed.len() == 0;
                self.device_names = listed;
                if !self.capturing {
                    if empty {
                        self.status = InputStatus::NoDevice;
                    } else {
                        self.status = InputStatus::Ready;
                    }
                }
            },
        }
    }

    /// Checks whether a stream of the selected device can be captured, by its channels
    /// and sample format.
    pub fn check_config(&self, channels: usize, format: PcmFormat, format_name: &str) -> (r: Result<
        (),
        CaptureRejection,
    >)
        ensures
            match (r, stream_config_check(
                channels,
                self@.first_channel,
                self@.backend == AudioBackend::Asio,
                format,
            )) {
                (Ok(()), None) => true,
                (Err(rejection), Some(expected)) => match (rejection@, expected) {
                    (
                        RejectionView::SampleFormat { format: f },
                        RejectionView::SampleFormat { .. },
                    ) => f == format_name@,
                    (got, expected) => got == expected,
                },
                _ => false,
            },
    {
        proof {
            use_type_invariant(self);
        }
        check_stream_config(channels, self.first_channel, self.backend.is_asio(), format, format_name)
    }

    /// Asks to start capture: capture stops, and the selected device, if any, is given
    /// back to open; with none, the start fails for the missing device.
    pub fn start_requested(&mut self) -> (device_name: Option<String>)
        ensures
            name_view(device_name) == old(self)@.selected_device,
            final(self)@ == start_requested_state(old(self)@),
    {
        self.stop();
        match &self.selected_device {
            Some(name) => Some(name.clone()),
            None => {
                self.start_failed(AudioInputError::SelectedDeviceMissing);
                None
            },
        }
    }

    /// Records that a stream of the selected device started at `sample_rate`.
    pub fn start_succeeded(&mut self, sample_rate: u32)
        ensures
            final(self)@ == started(old(self)@, sample_rate),
    {
        proof {
            use_type_invariant(&*self);
        }
        match &self.selected_device {
            Some(name) => {
                self.status = InputStatus::Capturing { device_name: name.clone(), sample_rate };
                self.capturing = true;
            },
            None => {
                self.start_failed(AudioInputError::SelectedDeviceMissing);
            },
        }
    }

    /// Records why capture did not start: an unusable stream shows as unsupported, any
    /// other failure as an error.
    pub fn start_failed(&mut self, error: AudioInputError)
        ensures
            final(self)@ == failed_start(old(self)@, error),
    {
        proof {
            use_type_invariant(&*self);
        }
        let message = error.message();
        self.capturing = false;
        match error {
            AudioInputError::UnsupportedInput(_) => {
                self.status = InputStatus::Unsupported(message);
            },
            _ => {
                self.status = InputStatus::Error(message);
            },
        }
    }

    /// Records a failure reported by the running stream, if any: capture ends and the
    /// status shows the failure.
    pub fn stream_failed(&mut self, error: Option<String>)
        ensures
            match error {
                Some(e) => final(self)@ == (InputView {
                    capturing: false,
                    status: StatusView::Error("入力ストリームエラー: "@ + e@),
                    ..old(self)@
                }),
                None => final(self)@ == old(self)@,
            },
    {
        proof {
            use_type_invariant(&*self);
        }
        if let Some(e) = error {
            self.capturing = false;
            self.status = InputStatus::Error(join_str("入力ストリームエラー: ", e.as_str()));
        }
    }
}

fn names_include(names: &Vec<String>, name: &str) -> (r: bool)
    ensures
        r == string_views(names@).contains(name@),
{
    let ghost views = string_views(names@);
    let mut k: usize = 0;
    while k < names.len()
        invariant
            k <= names@.len(),
            views == string_views(names@),
            forall|m: int| 0 <= m < k ==> views[m] != name@,
        decreases names.len() - k,
    {
        if str_eq(names[k].as_str(), name) {
            assert(views[k as int] == name@);
            return true;
        }
        k = k + 1;
    }
    false
}

} // verus!
