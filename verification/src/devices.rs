//! Sound devices: how they are listed, named and picked, what goes wrong with
//! them, and how the channels of one become a single one.
use crate::scalar::{count, from_count, lawful, sum, sum_of, total, Scalar};
use crate::rings::copied;
use crate::text::{append_decimal, dec, quote, quoted, same_text, text_view};
use vstd::prelude::*;
use vstd::std_specs::ops::DivSpec;
use vstd::string::*;

verus! {

/// The rate between the devices, in Hz.
pub const INTERNAL_SAMPLE_RATE: u32 = 48_000;

/// A microphone or a speaker.
#[derive(Clone, Copy, Debug, PartialEq, Eq, Structural)]
pub enum DeviceKind {
    Input,
    Output,
}

impl DeviceKind {
    /// Its name.
    pub open spec fn words(self) -> Seq<char> {
        match self {
            DeviceKind::Input => "input"@,
            DeviceKind::Output => "output"@,
        }
    }

    /// Its name.
    pub fn text(&self) -> (r: &'static str)
        ensures
            r@ == self.words(),
    {
        match self {
            DeviceKind::Input => "input",
            DeviceKind::Output => "output",
        }
    }
}

/// A device as it is shown.
#[derive(Clone, Debug)]
pub struct AudioDevice {
    pub kind: DeviceKind,
    pub name: String,
    pub is_default: bool,
    pub default_sample_rate: u32,
    pub default_channels: u16,
    pub default_sample_format: String,
}

/// What is shown of a device.
pub struct DeviceView {
    pub kind: DeviceKind,
    pub name: Seq<char>,
    pub is_default: bool,
    pub default_sample_rate: u32,
    pub default_channels: u16,
    pub default_sample_format: Seq<char>,
}

impl View for AudioDevice {
    type V = DeviceView;

    open spec fn view(&self) -> DeviceView {
        DeviceView {
            kind: self.kind,
            name: self.name@,
            is_default: self.is_default,
            default_sample_rate: self.default_sample_rate,
            default_channels: self.default_channels,
            default_sample_format: self.default_sample_format@,
        }
    }
}

impl DeviceView {
    /// The line that shows the device; the default one is starred.
    pub open spec fn words(self) -> Seq<char> {
        (if self.is_default {
            "* "@
        } else {
            "  "@
        }) + "["@ + self.kind.words() + "] "@ + self.name + " ("@ + dec(
            self.default_sample_rate as nat,
        ) + " Hz, "@ + dec(self.default_channels as nat) + " ch, "@ + self.default_sample_format
            + ")"@
    }
}

impl AudioDevice {
    /// The line that shows the device.
    pub fn text(&self) -> (r: String)
        ensures
            r@ == self@.words(),
    {
        let marker: &str = if self.is_default {
            "* "
        } else {
            "  "
        };
        let mut s: String = marker.to_owned();
        s.append("[");
        s.append(self.kind.text());
        s.append("] ");
        s.append(self.name.as_str());
        s.append(" (");
        append_decimal(&mut s, self.default_sample_rate as u64);
        s.append(" Hz, ");
        append_decimal(&mut s, self.default_channels as u64);
        s.append(" ch, ");
        s.append(self.default_sample_format.as_str());
        s.append(")");
        s
    }
}

/// What can go wrong around the devices.
#[derive(Debug)]
pub enum AudioIoError {
    /// There is no default device.
    NoDefaultDevice(DeviceKind),
    /// The host does not answer.
    DeviceQuery(String),
    /// No device has that name.
    DeviceNotFound { kind: DeviceKind, name: String },
    /// The device does not speak 32-bit floats.
    UnsupportedSampleFormat { format: String },
    /// A stream could not be built or started.
    Stream(String),
    /// A resampler could not be built or run.
    Resample(String),
    /// The pipeline failed.
    Pipeline(String),
    /// The worker is gone.
    WorkerDied(String),
}

impl AudioIoError {
    /// The words of the error.
    pub open spec fn words(self) -> Seq<char> {
        match self {
            AudioIoError::NoDefaultDevice(kind) => "no default "@ + kind.words()
                + " device available"@,
            AudioIoError::DeviceQuery(e) => "device query failed: "@ + e@,
            AudioIoError::DeviceNotFound { kind, name } => "no "@ + kind.words()
                + " device named "@ + quoted(name@),
            AudioIoError::UnsupportedSampleFormat { format } => "unsupported sample format "@
                + quoted(format@) + " — only f32 is accepted in step 12"@,
            AudioIoError::Stream(e) => "cpal stream error: "@ + e@,
            AudioIoError::Resample(e) => "resampler error: "@ + e@,
            AudioIoError::Pipeline(e) => "pipeline error: "@ + e@,
            AudioIoError::WorkerDied(e) => "worker thread died: "@ + e@,
        }
    }

    /// The error in words.
    pub fn message(&self) -> (r: String)
        ensures
            r@ == self.words(),
    {
        match self {
            AudioIoError::NoDefaultDevice(kind) => {
                let mut s: String = "no default ".to_owned();
                s.append(kind.text());
                s.append(" device available");
                s
            },
            AudioIoError::DeviceQuery(e) => "device query failed: ".to_owned().concat(e.as_str()),
            AudioIoError::DeviceNotFound { kind, name } => {
                let mut s: String = "no ".to_owned();
                s.append(kind.text());
                s.append(" device named ");
                let q: String = quote(name.as_str());
                s.append(q.as_str());
                s
            },
            AudioIoError::UnsupportedSampleFormat { format } => {
                let mut s: String = "unsupported sample format ".to_owned();
                let q: String = quote(format.as_str());
                s.append(q.as_str());
                s.append(" — only f32 is accepted in step 12");
                s
            },
            AudioIoError::Stream(e) => "cpal stream error: ".to_owned().concat(e.as_str()),
            AudioIoError::Resample(e) => "resampler error: ".to_owned().concat(e.as_str()),
            AudioIoError::Pipeline(e) => "pipeline error: ".to_owned().concat(e.as_str()),
            AudioIoError::WorkerDied(e) => "worker thread died: ".to_owned().concat(e.as_str()),
        }
    }
}

// ---------------------------------------------------------------------
// Listing
// ---------------------------------------------------------------------
/// How a device streams unless it is told otherwise.
#[derive(Clone, Debug)]
pub struct DeviceConfig {
    pub sample_rate: u32,
    pub channels: u16,
    /// The name of the sample format.
    pub sample_format: String,
}

/// A device as the host reports it: its name or why it has none, and how it
/// streams, unless that cannot be asked at present.
#[derive(Debug)]
pub struct HostDevice {
    pub name: Result<String, String>,
    pub config: Option<DeviceConfig>,
}

/// What is shown of a device that has a name and can be asked.
pub open spec fn shown(kind: DeviceKind, default: Option<Seq<char>>, d: HostDevice) -> DeviceView {
    DeviceView {
        kind,
        name: d.name->Ok_0@,
        is_default: default == Some(d.name->Ok_0@),
        default_sample_rate: d.config->0.sample_rate,
        default_channels: d.config->0.channels,
        default_sample_format: d.config->0.sample_format@,
    }
}

/// What is shown of the first `k` devices: those that can be asked, in order.
pub open spec fn shown_devices(
    kind: DeviceKind,
    default: Option<Seq<char>>,
    devices: Seq<HostDevice>,
    k: nat,
) -> Seq<DeviceView>
    decreases k,
{
    if k == 0 {
        Seq::empty()
    } else {
        let before = shown_devices(kind, default, devices, (k - 1) as nat);
        if devices[k - 1].config is Some {
            before.push(shown(kind, default, devices[k - 1]))
        } else {
            before
        }
    }
}

/// The first `k` devices have a name.
pub open spec fn are_named(devices: Seq<HostDevice>, k: nat) -> bool {
    forall|i: int| 0 <= i < k ==> (#[trigger] devices[i]).name is Ok
}

/// What listing returns: the devices that can be asked, in the host's order,
/// unless the host does not list them or one has no name.
pub open spec fn is_listing(
    kind: DeviceKind,
    default: Option<Seq<char>>,
    listed: Result<Vec<HostDevice>, String>,
    r: Result<Vec<AudioDevice>, AudioIoError>,
) -> bool {
    match listed {
        Err(e) => r == Err::<Vec<AudioDevice>, AudioIoError>(AudioIoError::DeviceQuery(e)),
        Ok(devices) => match r {
            Ok(list) => {
                &&& are_named(devices@, devices@.len())
                &&& list@.map_values(|d: AudioDevice| d@) == shown_devices(
                    kind,
                    default,
                    devices@,
                    devices@.len(),
                )
            },
            Err(e) => exists|k: nat|
                {
                    &&& k < devices@.len()
                    &&& #[trigger] are_named(devices@, k)
                    &&& devices@[k as int].name is Err
                    &&& e matches AudioIoError::DeviceQuery(e) && e@
                        == devices@[k as int].name->Err_0@
                },
        },
    }
}

fn enumerate(
    kind: DeviceKind,
    default_name: Option<&str>,
    listed: Result<Vec<HostDevice>, String>,
) -> (r: Result<Vec<AudioDevice>, AudioIoError>)
    ensures
        is_listing(kind, text_view(default_name), listed, r),
{
    let devices: Vec<HostDevice> = match listed {
        Err(e) => {
            return Err(AudioIoError::DeviceQuery(e));
        },
        Ok(devices) => devices,
    };
    let ghost default = text_view(default_name);
    let mut out: Vec<AudioDevice> = Vec::new();
    let mut k: usize = 0;
    assert(out@.map_values(|d: AudioDevice| d@) =~= Seq::<DeviceView>::empty());
    while k < devices.len()
        invariant
            k <= devices@.len(),
            default == text_view(default_name),
            listed == Ok::<Vec<HostDevice>, String>(devices),
            are_named(devices@, k as nat),
            out@.map_values(|d: AudioDevice| d@) == shown_devices(
                kind,
                default,
                devices@,
                k as nat,
            ),
        decreases devices@.len() - k,
    {
        match &devices[k].name {
            Err(e) => {
                let cause: String = e.as_str().to_owned();
                return Err(AudioIoError::DeviceQuery(cause));
            },
            Ok(name) => {
                if let Some(config) = &devices[k].config {
                    let is_default: bool = match default_name {
                        Some(d) => same_text(d, name.as_str()),
                        None => false,
                    };
                    let ghost before = out@;
                    let device: AudioDevice = AudioDevice {
                        kind,
                        name: name.as_str().to_owned(),
                        is_default,
                        default_sample_rate: config.sample_rate,
                        default_channels: config.channels,
                        default_sample_format: config.sample_format.as_str().to_owned(),
                    };
                    assert(device@ == shown(kind, default, devices@[k as int]));
                    out.push(device);
                    assert(out@.map_values(|d: AudioDevice| d@) =~= before.map_values(
                        |d: AudioDevice| d@,
                    ).push(device@));
                }
            },
        }
        k = k + 1;
    }
    Ok(out)
}

/// The microphones. `default_name` is the name of the host's default one.
pub fn list_input_devices(
    default_name: Option<&str>,
    listed: Result<Vec<HostDevice>, String>,
) -> (r: Result<Vec<AudioDevice>, AudioIoError>)
    ensures
        is_listing(DeviceKind::Input, text_view(default_name), listed, r),
{
    enumerate(DeviceKind::Input, default_name, listed)
}

/// The speakers. `default_name` is the name of the host's default one.
pub fn list_output_devices(
    default_name: Option<&str>,
    listed: Result<Vec<HostDevice>, String>,
) -> (r: Result<Vec<AudioDevice>, AudioIoError>)
    ensures
        is_listing(DeviceKind::Output, text_view(default_name), listed, r),
{
    enumerate(DeviceKind::Output, default_name, listed)
}

// ---------------------------------------------------------------------
// Picking
// ---------------------------------------------------------------------
/// Which device is taken.
#[derive(Clone, Copy, Debug, PartialEq, Eq, Structural)]
pub enum Pick {
    /// The host's default one.
    Default,
    /// The one at that place of the host's list.
    Listed(usize),
}

/// Device `i` has that name.
pub open spec fn is_called(names: Seq<Option<String>>, i: int, name: Seq<char>) -> bool {
    names[i] matches Some(n) && n@ == name
}

/// What [`pick_device`] returns: the first device of the wanted name, or, where
/// none is wanted, the default one.
pub open spec fn is_picked(
    kind: DeviceKind,
    wanted: Option<Seq<char>>,
    names: Result<Vec<Option<String>>, String>,
    has_default: bool,
    r: Result<Pick, AudioIoError>,
) -> bool {
    match wanted {
        None => if has_default {
            r == Ok::<Pick, AudioIoError>(Pick::Default)
        } else {
            r == Err::<Pick, AudioIoError>(AudioIoError::NoDefaultDevice(kind))
        },
        Some(name) => match names {
            Err(e) => r == Err::<Pick, AudioIoError>(AudioIoError::DeviceQuery(e)),
            Ok(names) => match r {
                Ok(pick) => {
                    &&& pick matches Pick::Listed(i)
                    &&& i < names@.len()
                    &&& is_called(names@, i as int, name)
                    &&& forall|j: int| 0 <= j < i ==> !#[trigger] is_called(names@, j, name)
                },
                Err(e) => {
                    &&& forall|j: int|
                        0 <= j < names@.len() ==> !#[trigger] is_called(names@, j, name)
                    &&& e matches AudioIoError::DeviceNotFound { kind: k, name: n } && k == kind
                        && n@ == name
                },
            },
        },
    }
}

/// Picks a device by name, or the host's default one. `names` are those of the
/// host's list, where a device has one; they matter only if a name is wanted.
pub fn pick_device(
    kind: DeviceKind,
    wanted: Option<&str>,
    names: Result<Vec<Option<String>>, String>,
    has_default: bool,
) -> (r: Result<Pick, AudioIoError>)
    ensures
        is_picked(kind, text_view(wanted), names, has_default, r),
{
    let name: &str = match wanted {
        None => {
            return if has_default {
                Ok(Pick::Default)
            } else {
                Err(AudioIoError::NoDefaultDevice(kind))
            };
        },
        Some(name) => name,
    };
    let list: Vec<Option<String>> = match names {
        Err(e) => {
            return Err(AudioIoError::DeviceQuery(e));
        },
        Ok(list) => list,
    };
    let mut i: usize = 0;
    while i < list.len()
        invariant
            i <= list@.len(),
            wanted == Some(name),
            names == Ok::<Vec<Option<String>>, String>(list),
            forall|j: int| 0 <= j < i ==> !#[trigger] is_called(list@, j, name@),
        decreases list@.len() - i,
    {
        if let Some(n) = &list[i] {
            if same_text(n.as_str(), name) {
                assert(is_called(list@, i as int, name@));
                return Ok(Pick::Listed(i));
            }
        }
        i = i + 1;
    }
    Err(AudioIoError::DeviceNotFound { kind, name: name.to_owned() })
}

/// The name of the one sample format that is taken.
pub open spec fn taken_format() -> Seq<char> {
    "F32"@
}

/// What [`check_format`] returns.
pub open spec fn is_format_checked(
    kind: DeviceKind,
    format: Seq<char>,
    r: Option<AudioIoError>,
) -> bool {
    if format == taken_format() {
        r is None
    } else {
        r matches Some(AudioIoError::UnsupportedSampleFormat { format: f }) && f@ == kind.words()
            + " "@ + format
    }
}

/// Refuses every sample format but 32-bit floats.
pub fn check_format(kind: DeviceKind, format: &str) -> (r: Option<AudioIoError>)
    ensures
        is_format_checked(kind, format@, r),
{
    if same_text(format, "F32") {
        return None;
    }
    let mut s: String = kind.text().to_owned();
    s.append(" ");
    s.append(format);
    Some(AudioIoError::UnsupportedSampleFormat { format: s })
}

// ---------------------------------------------------------------------
// Channels
// ---------------------------------------------------------------------
/// How the channels of a device become one.
#[derive(Clone, Copy, Debug, PartialEq, Eq, Structural)]
pub enum ChannelStrategy {
    /// The mean of all.
    Average,
    /// One of them; the mean where there is no such channel.
    Channel(u16),
}

/// Frame `f` of interleaved samples.
pub open spec fn frame_of<N>(interleaved: Seq<N>, channels: nat, f: int) -> Seq<N> {
    interleaved.subrange(f * channels, f * channels + channels)
}

/// One sample for a frame.
pub open spec fn mixed_down<N: Scalar>(strategy: ChannelStrategy, frame: Seq<N>) -> N {
    match strategy {
        ChannelStrategy::Channel(n) if n < frame.len() => frame[n as int],
        _ => sum(frame, frame.len()).div_spec(count(frame.len())),
    }
}

/// Whether the strategy takes one channel out of `channels`.
pub open spec fn takes_one(strategy: ChannelStrategy, channels: nat) -> bool {
    strategy matches ChannelStrategy::Channel(n) && n < channels
}

/// What [`ChannelStrategy::downmix`] returns: one channel as it is; of more, one
/// sample for each complete frame.
pub open spec fn is_downmixed<N: Scalar>(
    strategy: ChannelStrategy,
    interleaved: Seq<N>,
    channels: usize,
    mono: Seq<N>,
) -> bool {
    if channels <= 1 {
        mono == interleaved
    } else {
        &&& mono.len() == interleaved.len() / channels as nat
        &&& forall|f: int|
            0 <= f < mono.len() && (takes_one(strategy, channels as nat) || lawful::<N>())
                ==> #[trigger] mono[f] == mixed_down(
                strategy,
                frame_of(interleaved, channels as nat, f),
            )
    }
}

impl Default for ChannelStrategy {
    /// The mean of all channels.
    fn default() -> (r: Self)
        ensures
            r == ChannelStrategy::Average,
    {
        ChannelStrategy::Average
    }
}

impl ChannelStrategy {
    /// Makes one channel out of interleaved ones. One channel stays as it is;
    /// of more, a last frame that is not complete is left out.
    pub fn downmix<N: Scalar>(self, interleaved: &[N], channels: usize) -> (r: Vec<N>)
        requires
            total::<N>(),
        ensures
            is_downmixed(self, interleaved@, channels, r@),
    {
        if channels <= 1 {
            return copied(interleaved);
        }
        let n: usize = interleaved.len();
        let frames: usize = n / channels;
        let mut mono: Vec<N> = Vec::new();
        let mut f: usize = 0;
        while f < frames
            invariant
                total::<N>(),
                channels > 1,
                n == interleaved@.len(),
                frames == n / channels,
                f <= frames,
                mono@.len() == f,
                forall|g: int|
                    0 <= g < f && (takes_one(self, channels as nat) || lawful::<N>())
                        ==> #[trigger] mono@[g] == mixed_down(
                        self,
                        frame_of(interleaved@, channels as nat, g),
                    ),
            decreases frames - f,
        {
            proof {
                assert((f + 1) * channels <= n) by {
                    vstd::arithmetic::div_mod::lemma_fundamental_div_mod(
                        n as int,
                        channels as int,
                    );
                    assert((f + 1) * channels <= frames * channels) by (nonlinear_arith)
                        requires
                            f + 1 <= frames,
                    ;
                    assert(channels * frames == frames * channels) by (nonlinear_arith);
                }
                assert((f + 1) * channels == f * channels + channels) by (nonlinear_arith);
            }
            let at: usize = f * channels;
            let ghost frame = frame_of(interleaved@, channels as nat, f as int);
            let x: N = match self {
                ChannelStrategy::Channel(c) if (c as usize) < channels => {
                    assert(frame[c as int] == interleaved@[at + c]);
                    interleaved[at + c as usize]
                },
                _ => {
                    let part: &[N] = vstd::slice::slice_subrange(interleaved, at, at + channels);
                    assert(part@ =~= frame);
                    let all: N = sum_of(part);
                    let by: N = from_count::<N>(channels as u64);
                    all / by
                },
            };
            mono.push(x);
            f = f + 1;
        }
        mono
    }
}

} // verus!
