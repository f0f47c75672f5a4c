//! Laws of sound devices: what is listed and picked, how channels become one, and what a
//! recording holds.
use crate::devices::{
    check_format, list_input_devices, list_output_devices, pick_device, shown_devices,
    AudioDevice, AudioIoError, ChannelStrategy, DeviceKind, DeviceView, HostDevice, Pick,
};
use crate::laws::{adds_up, cut_out, lemma_sum_adds_up};
use crate::recording::{downmix_to_mono, Recorder};
use crate::scalar::{count, lawful, lt, num, total, Scalar};
use crate::text::text_view;
use vstd::prelude::*;
use vstd::std_specs::ops::{DivSpec, MulSpec};

verus! {

/// The device as it is shown is the device that the host reports.
pub open spec fn shows(
    d: DeviceView,
    host: HostDevice,
    kind: DeviceKind,
    default: Option<Seq<char>>,
) -> bool {
    &&& host.name matches Ok(name) && d.name == name@ && (d.is_default <==> default == Some(name@))
    &&& host.config matches Some(c) && d.default_sample_rate == c.sample_rate && d.default_channels
        == c.channels && d.default_sample_format == c.sample_format@
    &&& d.kind == kind
}

/// The devices shown are those at `places` of the host's list, each once and in the
/// host's order, and no device that can be asked is left out.
pub open spec fn shows_all(
    shown: Seq<DeviceView>,
    places: Seq<int>,
    hosts: Seq<HostDevice>,
    kind: DeviceKind,
    default: Option<Seq<char>>,
) -> bool {
    &&& shown.len() == places.len()
    &&& forall|j: int| 0 <= j < places.len() ==> 0 <= #[trigger] places[j] < hosts.len()
    &&& forall|j: int, l: int|
        0 <= j < l < places.len() ==> #[trigger] places[j] < #[trigger] places[l]
    &&& forall|j: int|
        0 <= j < places.len() ==> shows(#[trigger] shown[j], hosts[places[j]], kind, default)
    &&& forall|i: int|
        0 <= i < hosts.len() && (#[trigger] hosts[i]).config is Some ==> places.contains(i)
}

proof fn lemma_shown(
    kind: DeviceKind,
    default: Option<Seq<char>>,
    hosts: Seq<HostDevice>,
    k: nat,
) -> (places: Seq<int>)
    requires
        k <= hosts.len(),
        forall|i: int| 0 <= i < hosts.len() ==> (#[trigger] hosts[i]).name is Ok,
    ensures
        shows_all(
            shown_devices(kind, default, hosts, k),
            places,
            hosts.take(k as int),
            kind,
            default,
        ),
    decreases k,
{
    if k == 0 {
        Seq::<int>::empty()
    } else {
        let before = lemma_shown(kind, default, hosts, (k - 1) as nat);
        let some = shown_devices(kind, default, hosts, (k - 1) as nat);
        let all = shown_devices(kind, default, hosts, k);
        let front = hosts.take(k - 1);
        let now = hosts.take(k as int);
        assert(forall|i: int| 0 <= i < k - 1 ==> now[i] == #[trigger] front[i]);
        let places = if hosts[k - 1].config is Some {
            before.push(k - 1)
        } else {
            before
        };
        assert forall|j: int| 0 <= j < places.len() implies shows(
            #[trigger] all[j],
            now[places[j]],
            kind,
            default,
        ) by {
            if j < before.len() {
                assert(all[j] == some[j]);
                assert(places[j] == before[j]);
                assert(now[before[j]] == front[before[j]]);
            }
        }
        assert forall|i: int| 0 <= i < now.len() && (#[trigger] now[i]).config is Some implies
            places.contains(i) by {
            if i < k - 1 {
                assert(front[i].config is Some);
                assert(before.contains(i));
                let j = choose|j: int| 0 <= j < before.len() && before[j] == i;
                assert(places[j] == i);
            } else {
                assert(places[places.len() - 1] == i);
            }
        }
        places
    }
}

/// A list of microphones shows every one that can be asked, once, in the host's order and
/// as the host reports it; the default one is marked.
pub proof fn lemma_inputs_are_listed_in_order(
    default_name: Option<&str>,
    hosts: Vec<HostDevice>,
    list: Vec<AudioDevice>,
)
    requires
        call_ensures(
            list_input_devices,
            (default_name, Ok::<Vec<HostDevice>, String>(hosts)),
            Ok::<Vec<AudioDevice>, AudioIoError>(list),
        ),
    ensures
        exists|places: Seq<int>|
            shows_all(
                Seq::new(list@.len(), |j: int| list@[j]@),
                #[trigger] places.take(places.len() as int),
                hosts@,
                DeviceKind::Input,
                text_view(default_name),
            ),
{
    let default = text_view(default_name);
    let places = lemma_shown(DeviceKind::Input, default, hosts@, hosts@.len());
    assert(hosts@.take(hosts@.len() as int) =~= hosts@);
    assert(places.take(places.len() as int) =~= places);
    assert(Seq::new(list@.len(), |j: int| list@[j]@) =~= list@.map_values(|d: AudioDevice| d@));
}

/// A list of speakers shows every one that can be asked, once, in the host's order and as
/// the host reports it; the default one is marked.
pub proof fn lemma_outputs_are_listed_in_order(
    default_name: Option<&str>,
    hosts: Vec<HostDevice>,
    list: Vec<AudioDevice>,
)
    requires
        call_ensures(
            list_output_devices,
            (default_name, Ok::<Vec<HostDevice>, String>(hosts)),
            Ok::<Vec<AudioDevice>, AudioIoError>(list),
        ),
    ensures
        exists|places: Seq<int>|
            shows_all(
                Seq::new(list@.len(), |j: int| list@[j]@),
                #[trigger] places.take(places.len() as int),
                hosts@,
                DeviceKind::Output,
                text_view(default_name),
            ),
{
    let default = text_view(default_name);
    let places = lemma_shown(DeviceKind::Output, default, hosts@, hosts@.len());
    assert(hosts@.take(hosts@.len() as int) =~= hosts@);
    assert(places.take(places.len() as int) =~= places);
    assert(Seq::new(list@.len(), |j: int| list@[j]@) =~= list@.map_values(|d: AudioDevice| d@));
}

/// A device without a name ends the listing: a list is made only where all have one, and
/// the error is that of the first that has none.
pub proof fn lemma_listing_wants_names(
    default_name: Option<&str>,
    hosts: Vec<HostDevice>,
    r: Result<Vec<AudioDevice>, AudioIoError>,
)
    requires
        call_ensures(
            list_input_devices,
            (default_name, Ok::<Vec<HostDevice>, String>(hosts)),
            r,
        ) || call_ensures(
            list_output_devices,
            (default_name, Ok::<Vec<HostDevice>, String>(hosts)),
            r,
        ),
    ensures
        r is Ok <==> forall|i: int| 0 <= i < hosts@.len() ==> (#[trigger] hosts@[i]).name is Ok,
        r matches Err(e) ==> exists|i: int|
            {
                &&& 0 <= i < hosts@.len()
                &&& (#[trigger] hosts@[i]).name matches Err(cause) && e matches AudioIoError::DeviceQuery(
                    told,
                ) && told@ == cause@
                &&& forall|j: int| 0 <= j < i ==> (#[trigger] hosts@[j]).name is Ok
            },
{
    if r is Err {
        let k = choose|k: nat|
            {
                &&& k < hosts@.len()
                &&& #[trigger] crate::devices::are_named(hosts@, k)
                &&& hosts@[k as int].name is Err
                &&& r->Err_0 matches AudioIoError::DeviceQuery(e) && e@
                    == hosts@[k as int].name->Err_0@
            };
        assert(hosts@[k as int].name is Err);
    }
}

/// Where a name is wanted, the device taken has it and no earlier one does; an error says
/// that none has it. Where none is wanted, the default device is taken if there is one.
pub proof fn lemma_first_of_the_name_is_picked(
    kind: DeviceKind,
    wanted: Option<&str>,
    names: Vec<Option<String>>,
    has_default: bool,
    r: Result<Pick, AudioIoError>,
    j: int,
)
    requires
        call_ensures(
            pick_device,
            (kind, wanted, Ok::<Vec<Option<String>>, String>(names), has_default),
            r,
        ),
        0 <= j < names@.len(),
    ensures
        wanted is None ==> (r == Ok::<Pick, AudioIoError>(Pick::Default) <==> has_default),
        wanted is None ==> (r == Err::<Pick, AudioIoError>(AudioIoError::NoDefaultDevice(kind))
            <==> !has_default),
        wanted matches Some(w) ==> match r {
            Ok(Pick::Default) => false,
            Ok(Pick::Listed(i)) => {
                &&& i < names@.len()
                &&& names@[i as int] matches Some(n) && n@ == w@
                &&& (names@[j] matches Some(n) && n@ == w@) ==> i <= j
            },
            Err(AudioIoError::DeviceNotFound { kind: k, name }) => {
                &&& k == kind
                &&& name@ == w@
                &&& !(names@[j] matches Some(n) && n@ == w@)
            },
            Err(_) => false,
        },
{
    assert(wanted matches Some(w) ==> crate::devices::is_called(names@, j, w@) == (names@[j] matches Some(n) && n@
        == w@));
}

/// Samples of 32-bit floating point are the only ones taken.
pub proof fn lemma_only_floats_are_taken(kind: DeviceKind, format: &str, r: Option<AudioIoError>)
    requires
        call_ensures(check_format, (kind, format), r),
    ensures
        r is None <==> format@ == "F32"@,
{
}

/// One channel is left as it is.
pub proof fn lemma_mono_stays<N: Scalar>(
    strategy: ChannelStrategy,
    samples: &[N],
    channels: usize,
    r: Vec<N>,
)
    requires
        call_ensures(ChannelStrategy::downmix::<N>, (strategy, samples, channels), r),
        channels <= 1,
    ensures
        r@ == samples@,
{
}

/// Of several channels, frame `f` gives one sample: that of the wanted channel, or what all
/// samples of the frame add up to over how many they are. Only complete frames count.
pub proof fn lemma_frame_gives_one_sample<N: Scalar>(
    strategy: ChannelStrategy,
    samples: &[N],
    channels: usize,
    r: Vec<N>,
    f: int,
    frame: Seq<N>,
)
    requires
        call_ensures(ChannelStrategy::downmix::<N>, (strategy, samples, channels), r),
        lawful::<N>(),
        channels > 1,
        0 <= f < r@.len(),
        cut_out(samples@, f * channels, channels as int, frame),
    ensures
        r@.len() * channels <= samples@.len() < (r@.len() + 1) * channels,
        match strategy {
            ChannelStrategy::Channel(c) if c < channels => r@[f] == samples@[f * channels + c],
            _ => exists|all: N|
                #[trigger] adds_up(frame, all) && r@[f] == all.div_spec(count(channels as nat)),
        },
{
    let n = samples@.len() as int;
    let c = channels as int;
    vstd::arithmetic::div_mod::lemma_fundamental_div_mod(n, c);
    let q = n / c;
    assert(r@.len() == q);
    assert(q * c <= n < (q + 1) * c) by (nonlinear_arith)
        requires
            n == c * q + n % c,
            0 <= n % c < c,
    ;
    assert((f + 1) * c <= q * c) by (nonlinear_arith)
        requires
            f + 1 <= q,
            c > 0,
    ;
    assert(f * c + c == (f + 1) * c) by (nonlinear_arith);
    assert(0 <= f * c) by (nonlinear_arith)
        requires
            0 <= f,
            0 < c,
    ;
    assert(crate::devices::frame_of(samples@, channels as nat, f) =~= frame);
    lemma_sum_adds_up(frame);
    assert(r@[f] == crate::devices::mixed_down(strategy, frame));
}

/// A recorder mixes its channels as the mean does.
pub proof fn lemma_recorder_takes_the_mean<N: Scalar>(
    samples: &[N],
    channels: usize,
    r: Vec<N>,
    f: int,
    frame: Seq<N>,
)
    requires
        call_ensures(downmix_to_mono::<N>, (samples, channels), r),
        lawful::<N>(),
        channels > 1,
        0 <= f < r@.len(),
        cut_out(samples@, f * channels, channels as int, frame),
    ensures
        exists|all: N| #[trigger]
            adds_up(frame, all) && r@[f] == all.div_spec(count(channels as nat)),
        r@.len() == samples@.len() / channels as nat,
{
    let n = samples@.len() as int;
    let c = channels as int;
    vstd::arithmetic::div_mod::lemma_fundamental_div_mod(n, c);
    let q = n / c;
    assert((f + 1) * c <= n) by (nonlinear_arith)
        requires
            n == c * q + n % c,
            0 <= n % c,
            f + 1 <= q,
            c > 0,
    ;
    assert(f * c + c == (f + 1) * c) by (nonlinear_arith);
    assert(0 <= f * c) by (nonlinear_arith)
        requires
            0 <= f,
            0 < c,
    ;
    assert(crate::devices::frame_of(samples@, channels as nat, f) =~= frame);
    lemma_sum_adds_up(frame);
    assert(r@[f] == crate::devices::mixed_down(ChannelStrategy::Average, frame));
}

/// A recording holds what was pushed, in order, from its start on, and never more than was
/// asked for.
pub proof fn lemma_recording_is_what_was_pushed<N: Scalar>(
    rec: &mut Recorder<N>,
    chunk: &[N],
    r: Vec<N>,
)
    requires
        call_ensures(Recorder::<N>::push_chunk, (rec, chunk), ()),
        call_ensures(Recorder::<N>::finish, (*final(rec),), r),
    ensures
        r@.len() == if old(rec)@.captured.len() + chunk@.len() < old(rec)@.target_samples {
            old(rec)@.captured.len() + chunk@.len()
        } else {
            old(rec)@.target_samples
        },
        forall|i: int|
            0 <= i < r@.len() && i < old(rec)@.captured.len() ==> #[trigger] r@[i] == old(
                rec,
            )@.captured[i],
        forall|i: int|
            old(rec)@.captured.len() <= i < r@.len() ==> #[trigger] r@[i] == chunk@[i - old(
                rec,
            )@.captured.len()],
{
}

/// A recorder that is made for a number of seconds starts empty and wants as many samples
/// as those seconds have, until it holds them or is told to stop.
pub proof fn lemma_recorder_wants_its_seconds<N: Scalar, R: Fn(N) -> usize>(
    rate: u32,
    seconds: N,
    round: &R,
    rec: Recorder<N>,
    more: bool,
)
    requires
        call_ensures(Recorder::<N>::start::<R>, (rate, seconds, round), rec),
        call_ensures(Recorder::<N>::wants_more, (&rec,), more),
        lawful::<N>(),
    ensures
        rec@.captured.len() == 0,
        exists|n: usize|
            {
                &&& #[trigger] call_ensures(
                    *round,
                    (seconds.mul_spec(count(rate as nat)),),
                    n,
                )
                &&& rec@.target_samples == n
                &&& more <==> n > 0
            },
{
}

/// A recorder wants more as long as it holds less than it is to hold and was not told to
/// stop; telling it to stop loses nothing.
pub proof fn lemma_recorder_stops<N: Scalar>(rec: &mut Recorder<N>, before: bool, after: bool)
    requires
        call_ensures(Recorder::<N>::wants_more, (&*rec,), before),
        call_ensures(Recorder::<N>::cancel, (rec,), ()),
        call_ensures(Recorder::<N>::wants_more, (&*final(rec),), after),
    ensures
        before <==> old(rec)@.captured.len() < old(rec)@.target_samples && !old(rec)@.cancelled,
        !after,
        final(rec)@.captured == old(rec)@.captured,
        final(rec)@.target_samples == old(rec)@.target_samples,
{
}

/// Progress is the share of the wanted samples that was captured, at most one; the seconds
/// are samples over the rate.
pub proof fn lemma_progress_is_a_share<N: Scalar>(
    rec: &Recorder<N>,
    share: N,
    elapsed: N,
    target: N,
)
    requires
        call_ensures(Recorder::<N>::progress, (rec,), share),
        call_ensures(Recorder::<N>::elapsed_seconds, (rec,), elapsed),
        call_ensures(Recorder::<N>::target_seconds, (rec,), target),
        lawful::<N>(),
    ensures
        rec@.target_samples == 0 ==> share == num::<N>(1),
        rec@.target_samples > 0 ==> {
            let part = count::<N>(rec@.captured.len()).div_spec(count(rec@.target_samples));
            if lt(num(1), part) {
                share == num::<N>(1)
            } else {
                share == part
            }
        },
        elapsed == count::<N>(rec@.captured.len()).div_spec(
            count(rec@.target_sample_rate as nat),
        ),
        target == count::<N>(rec@.target_samples).div_spec(count(rec@.target_sample_rate as nat)),
{
}

} // verus!
