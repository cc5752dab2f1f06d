//! The set-up, question by question and answer by answer.
use crate::enums::streaming::{BitDepth, Endian, StreamSize, StreamingFormat};
use crate::laws::text::{
    all_digits, holds_word, lemma_decimal_spells, lemma_holds_word, number,
    spells,
};
use crate::utils::configuration::{Configuration, Settings};
use crate::utils::text::texts;
use crate::utils::wizard::{
    default_output, is_cable, is_default_output, names_cable, renderer_labels, renderer_texts,
    uppercase_of, RendererInfo, Request, Stage, Wizard, WizardError,
};
use vstd::prelude::*;

verus! {

/// The settings of a configuration are what it holds.
pub proof fn law_settings_are_what_is_configured(c: Configuration)
    ensures
        c.last_network is None <==> c@.last_network is None,
        c.last_network matches Some(t) ==> c@.last_network == Some(t@),
        c.last_renderer is None <==> c@.last_renderer is None,
        c.last_renderer matches Some(t) ==> c@.last_renderer == Some(t@),
        c@.active_renderers.len() == c.active_renderers@.len(),
        forall|i: int|
            0 <= i < c.active_renderers@.len() ==> #[trigger] c@.active_renderers[i]
                == c.active_renderers@[i]@,
        c.sound_source is None <==> c@.sound_source is None,
        c.sound_source matches Some(t) ==> c@.sound_source == Some(t@),
        c@.sound_source_index == c.sound_source_index,
        c.input_device is None <==> c@.input_device is None,
        c.input_device matches Some(t) ==> c@.input_device == Some(t@),
        c@.streaming_format == c.streaming_format,
        c@.wav_stream_size == c.wav_stream_size,
        c@.auto_calibrate == c.auto_calibrate,
        c@.latency_threshold_ms == c.latency_threshold_ms,
        c@.capture_timeout == c.capture_timeout,
{
}

/// A set-up starts with the choice of a network, and with the settings that there are. It
/// fails exactly when there is no network.
pub proof fn law_setup_starts_with_the_networks(
    config: Configuration,
    networks: Vec<String>,
    r: Result<Wizard, WizardError>,
)
    requires
        call_ensures(Wizard::start, (config, networks), r),
    ensures
        r is Err <==> networks@.len() == 0,
        r matches Err(e) ==> e is NoNetworks,
        r matches Ok(w) ==> {
            &&& w.config@ == config@
            &&& w.stage matches Stage::Network { networks: offered } && texts(offered@) == texts(
                networks@,
            )
        },
{
}

/// There is a choice for each item of a list, and of three formats.
pub proof fn law_choices_are_the_items(w: Wizard, r: usize)
    requires
        call_ensures(Wizard::choices, (&w,), r),
    ensures
        w.stage matches Stage::Network { networks } ==> r == networks@.len(),
        w.stage matches Stage::Renderer { renderers } ==> r == renderers@.len(),
        w.stage matches Stage::Output { names } ==> r == names@.len(),
        w.stage matches Stage::Input { names } ==> r == names@.len(),
        w.stage is Format ==> r == 3,
{
}

/// The network that is chosen becomes the network to use; renderers are discovered next.
pub proof fn law_chosen_network_is_used(w: &mut Wizard, i: usize)
    requires
        call_ensures(Wizard::pick, (w, i), ()),
        old(w).stage matches Stage::Network { networks } && i < networks@.len(),
    ensures
        old(w).stage matches Stage::Network { networks } && final(w).config@ == (Settings {
            last_network: Some(networks@[i as int]@),
            ..old(w).config@
        }),
        final(w).stage is Discovery,
{
    assert(texts(old(w).stage->networks@)[i as int] == old(w).stage->networks@[i as int]@);
}

/// The address of the renderer that is chosen becomes that of the renderer to use, and of
/// the only one to start; the outputs are listed next.
pub proof fn law_chosen_renderer_is_used(w: &mut Wizard, i: usize)
    requires
        call_ensures(Wizard::pick, (w, i), ()),
        old(w).stage matches Stage::Renderer { renderers } && i < renderers@.len(),
    ensures
        old(w).stage matches Stage::Renderer { renderers } && final(w).config@ == (Settings {
            last_renderer: Some(renderers@[i as int].remote_addr@),
            active_renderers: seq![renderers@[i as int].remote_addr@],
            ..old(w).config@
        }),
        final(w).stage is Outputs,
{
    assert(renderer_texts(old(w).stage->renderers@)[i as int].remote_addr
        == old(w).stage->renderers@[i as int].remote_addr@);
}

/// The output that is chosen becomes the one to capture, by its name and its place; the
/// inputs are listed next.
pub proof fn law_chosen_output_is_captured(w: &mut Wizard, i: usize)
    requires
        call_ensures(Wizard::pick, (w, i), ()),
        old(w).stage matches Stage::Output { names } && i < names@.len(),
        i <= 0x7fff_ffff,
    ensures
        final(w).config.sound_source_index matches Some(k) && k == i,
        old(w).stage matches Stage::Output { names } && final(w).config@ == (Settings {
            sound_source: Some(names@[i as int]@),
            sound_source_index: final(w).config.sound_source_index,
            ..old(w).config@
        }),
        final(w).stage is Inputs,
{
    assert(texts(old(w).stage->Output_names@)[i as int] == old(w).stage->Output_names@[i as int]@);
}

/// The input that is chosen becomes the one that listens; the format is chosen next.
pub proof fn law_chosen_input_listens(w: &mut Wizard, i: usize)
    requires
        call_ensures(Wizard::pick, (w, i), ()),
        old(w).stage matches Stage::Input { names } && i < names@.len(),
    ensures
        old(w).stage matches Stage::Input { names } && final(w).config@ == (Settings {
            input_device: Some(names@[i as int]@),
            ..old(w).config@
        }),
        final(w).stage is Format,
{
    assert(texts(old(w).stage->Input_names@)[i as int] == old(w).stage->Input_names@[i as int]@);
}

/// A discovery that failed or found nothing ends the set-up where it stands. Else one of
/// the renderers that were found is chosen next.
pub proof fn law_discovery_offers_what_it_found(
    w: &mut Wizard,
    renderers: Option<Vec<RendererInfo>>,
    r: Result<(), WizardError>,
)
    requires
        call_ensures(Wizard::discovered, (w, renderers), r),
        old(w).stage is Discovery,
    ensures
        final(w).config@ == old(w).config@,
        renderers is None ==> r == Err::<(), WizardError>(WizardError::DiscoveryFailed),
        renderers matches Some(found) ==> {
            &&& found@.len() == 0 ==> r == Err::<(), WizardError>(WizardError::NoRenderers)
            &&& found@.len() > 0 ==> {
                &&& r is Ok
                &&& final(w).stage matches Stage::Renderer { renderers: offered }
                    && offered@.len() == found@.len() && forall|i: int|
                    0 <= i < found@.len() ==> (#[trigger] offered@[i]).dev_name@
                        == found@[i].dev_name@ && offered@[i].remote_addr@
                        == found@[i].remote_addr@
            }
        },
        r is Err ==> final(w).stage is Discovery,
{
    if let Some(found) = renderers {
        if found@.len() > 0 {
            let offered = final(w).stage->renderers;
            assert(renderer_texts(offered@).len() == renderer_texts(found@).len());
            assert forall|i: int| 0 <= i < found@.len() implies (#[trigger] offered@[i]).dev_name@
                == found@[i].dev_name@ && offered@[i].remote_addr@ == found@[i].remote_addr@ by {
                assert(renderer_texts(offered@)[i] == renderer_texts(found@)[i]);
            }
        }
    }
}

/// Without an output the set-up ends where it stands. Else one of them is chosen next.
pub proof fn law_outputs_are_offered(w: &mut Wizard, names: Vec<String>, r: Result<(), WizardError>)
    requires
        call_ensures(Wizard::outputs_listed, (w, names), r),
        old(w).stage is Outputs,
    ensures
        final(w).config@ == old(w).config@,
        names@.len() == 0 ==> r == Err::<(), WizardError>(WizardError::NoOutputs),
        names@.len() == 0 ==> final(w).stage is Outputs,
        names@.len() > 0 ==> r is Ok && (final(w).stage matches Stage::Output { names: offered }
            && texts(offered@) == texts(names@)),
{
}

/// Without an input none is configured, and the format is chosen next. Else one of the
/// inputs is chosen next.
pub proof fn law_inputs_are_offered(w: &mut Wizard, names: Vec<String>)
    requires
        call_ensures(Wizard::inputs_listed, (w, names), ()),
        old(w).stage is Inputs,
    ensures
        names@.len() == 0 ==> final(w).stage is Format && final(w).config@ == (Settings {
            input_device: None,
            ..old(w).config@
        }),
        names@.len() > 0 ==> final(w).config@ == old(w).config@ && (
        final(w).stage matches Stage::Input { names: offered } && texts(offered@) == texts(names@)),
{
}

/// The first format is WAV, which is then sent in chunks whatever was set before, the
/// second LPCM and the third RF64. Calibration is offered as it is saved, and switched on
/// when nothing is.
pub proof fn law_chosen_format_is_streamed(w: &mut Wizard, i: usize, saved: Option<bool>)
    requires
        call_ensures(Wizard::choose_format, (w, i, saved), ()),
        old(w).stage is Format,
        i < 3,
    ensures
        i == 0 ==> final(w).config@ == (Settings {
            streaming_format: Some(StreamingFormat::Wav),
            wav_stream_size: Some(StreamSize::U32maxChunked),
            ..old(w).config@
        }),
        i == 1 ==> final(w).config@ == (Settings {
            streaming_format: Some(StreamingFormat::Lpcm),
            ..old(w).config@
        }),
        i == 2 ==> final(w).config@ == (Settings {
            streaming_format: Some(StreamingFormat::Rf64),
            ..old(w).config@
        }),
        final(w).stage matches Stage::Calibration { offered } && (saved is None ==> offered) && (
        saved matches Some(on) ==> offered == on),
{
}

/// Calibration is switched as it is answered. With it a threshold is asked for next; else
/// the settings are saved.
pub proof fn law_calibration_is_switched(w: &mut Wizard, calibrate: bool)
    requires
        call_ensures(Wizard::confirm, (w, calibrate), ()),
        old(w).stage is Calibration,
    ensures
        final(w).config@ == (Settings { auto_calibrate: Some(calibrate), ..old(w).config@ }),
        calibrate ==> final(w).stage is Threshold,
        !calibrate ==> final(w).stage is Saving,
{
}

/// A threshold is set to the number that is entered, and the settings are saved next. What
/// is no number of 32 bits is refused, and nothing changes.
pub proof fn law_entered_threshold_is_set(w: &mut Wizard, text: &str, r: Result<(), WizardError>)
    requires
        call_ensures(Wizard::enter_threshold, (w, text), r),
        old(w).stage is Threshold,
    ensures
        ({
            let body = if text@.len() > 0 && text@[0] as int == 43 {
                text@.skip(1)
            } else {
                text@
            };
            if all_digits(body) && number(body) <= 0xffff_ffff {
                &&& r is Ok
                &&& final(w).stage is Saving
                &&& final(w).config.latency_threshold_ms matches Some(ms) && ms == number(body)
                &&& final(w).config@ == (Settings {
                    latency_threshold_ms: final(w).config.latency_threshold_ms,
                    ..old(w).config@
                })
            } else {
                &&& r == Err::<(), WizardError>(WizardError::InvalidThreshold)
                &&& final(w).stage is Threshold
                &&& final(w).config@ == old(w).config@
            }
        }),
{
    crate::laws::text::lemma_number_is_read(text@);
}

/// After the settings are saved the set-up is complete, and they stay as they are.
pub proof fn law_saved_setup_is_complete(w: &mut Wizard)
    requires
        call_ensures(Wizard::saved, (w,), ()),
        old(w).stage is Saving,
    ensures
        final(w).stage is Complete,
        final(w).config@ == old(w).config@,
{
}

/// A device whose name, in upper case, holds CABLE or VB-AUDIO is a virtual cable, and no
/// other is.
pub proof fn law_cables_are_told_by_their_name(upper: &str, r: bool)
    requires
        call_ensures(names_cable, (upper,), r),
    ensures
        r <==> holds_word(upper@, "CABLE"@) || holds_word(upper@, "VB-AUDIO"@),
{
    lemma_holds_word(upper@, "CABLE"@);
    lemma_holds_word(upper@, "VB-AUDIO"@);
}

/// The output that is offered first is the first virtual cable, and the first output of
/// all when there is none.
pub proof fn law_first_cable_is_offered(names: &Vec<String>, r: usize)
    requires
        call_ensures(default_output, (names,), r),
    ensures
        names@.len() > 0 ==> r < names@.len(),
        forall|k: int|
            0 <= k < r ==> !holds_word(uppercase_of((#[trigger] names@[k])@), "CABLE"@)
                && !holds_word(uppercase_of(names@[k]@), "VB-AUDIO"@),
        r > 0 ==> holds_word(uppercase_of(names@[r as int]@), "CABLE"@) || holds_word(
            uppercase_of(names@[r as int]@),
            "VB-AUDIO"@,
        ),
        forall|k: int|
            0 <= k < names@.len() && (holds_word(uppercase_of((#[trigger] names@[k])@), "CABLE"@)
                || holds_word(uppercase_of(names@[k]@), "VB-AUDIO"@)) ==> {
                &&& r <= k
                &&& holds_word(uppercase_of(names@[r as int]@), "CABLE"@) || holds_word(
                    uppercase_of(names@[r as int]@),
                    "VB-AUDIO"@,
                )
            },
{
    lemma_offered(texts(names@), r as int);
    assert forall|k: int| 0 <= k < names@.len() implies #[trigger] names@[k]@ == texts(
        names@,
    )[k] by {}
}

/// The same of the texts of names.
proof fn lemma_offered(names: Seq<Seq<char>>, r: int)
    requires
        is_default_output(names, r),
        r >= 0,
    ensures
        forall|k: int|
            0 <= k < names.len() ==> (is_cable(uppercase_of(#[trigger] names[k])) <==> holds_word(
                uppercase_of(names[k]),
                "CABLE"@,
            ) || holds_word(uppercase_of(names[k]), "VB-AUDIO"@)),
        forall|k: int| 0 <= k < r ==> !is_cable(uppercase_of(#[trigger] names[k])),
        r > 0 ==> r < names.len() && is_cable(uppercase_of(names[r])),
        forall|k: int|
            0 <= k < names.len() && is_cable(uppercase_of(#[trigger] names[k])) ==> r <= k
                && is_cable(uppercase_of(names[r])),
{
    let cable = |k: int| is_cable(uppercase_of(names[k]));
    assert forall|k: int| 0 <= k < names.len() implies (is_cable(uppercase_of(#[trigger] names[k]))
        <==> holds_word(uppercase_of(names[k]), "CABLE"@) || holds_word(
        uppercase_of(names[k]),
        "VB-AUDIO"@,
    )) by {
        lemma_holds_word(uppercase_of(names[k]), "CABLE"@);
        lemma_holds_word(uppercase_of(names[k]), "VB-AUDIO"@);
    }
    assert forall|k: int| 0 <= k < r implies !is_cable(uppercase_of(#[trigger] names[k])) by {
        assert(!cable(k));
    }
    assert forall|k: int| 0 <= k < names.len() && is_cable(uppercase_of(#[trigger] names[k])) implies r
        <= k && is_cable(uppercase_of(names[r])) by {
        assert(cable(k));
    }
}

/// What the user is told when a set-up ends without a configuration.
pub proof fn law_errors_are_told(e: WizardError, r: String)
    requires
        call_ensures(WizardError::message, (&e,), r),
    ensures
        e is NoNetworks ==> r@ == "No IPv4 network interfaces found."@,
        e is DiscoveryFailed ==> r@ == "SSDP discovery failed"@,
        e is NoRenderers ==> r@ == "No renderers found. Check network / firewall."@,
        e is NoOutputs ==> r@ == "No audio output devices to capture."@,
        e is InvalidThreshold ==> r@ == "Invalid latency threshold"@,
{
}

/// What is asked for where a set-up stands. A list has the items that can be chosen, in
/// their order: networks and devices by their names, renderers by their name and address.
pub proof fn law_setup_asks_for_what_is_next(w: Wizard, q: Request)
    requires
        call_ensures(Wizard::request, (&w,), q),
    ensures
        w.stage matches Stage::Network { networks } ==> {
            q matches Request::Select { prompt, items, default } && prompt@
                == "Network interface for SSDP + stream URL"@ && texts(items@) == texts(networks@)
                && default == 0
        },
        w.stage is Discovery ==> q is Discover,
        w.stage matches Stage::Renderer { renderers } ==> {
            q matches Request::Select { prompt, items, default } && prompt@
                == "Speaker / renderer"@ && items@.len() == renderers@.len() && default == 0
                && forall|i: int|
                0 <= i < renderers@.len() ==> (#[trigger] items@[i])@ == renderers@[i].dev_name@
                    + " — "@ + renderers@[i].remote_addr@
        },
        w.stage is Outputs ==> q is ListOutputs,
        w.stage matches Stage::Output { names } ==> {
            q matches Request::Select { prompt, items, default } && prompt@
                == "Loopback capture device (e.g. VB-Cable Output)"@ && texts(items@) == texts(
                names@,
            ) && is_default_output(texts(names@), default as int)
        },
        w.stage is Inputs ==> q is ListInputs,
        w.stage matches Stage::Input { names } ==> {
            q matches Request::Select { prompt, items, default } && prompt@
                == "Input device for latency detection (mic / line-in)"@ && texts(items@) == texts(
                names@,
            ) && default == 0
        },
        w.stage is Format ==> {
            q matches Request::Select { prompt, items, default } && prompt@ == "Streaming format"@
                && texts(items@) == seq!["WAV (recommended for Sonos)"@, "LPCM"@, "RF64"@]
                && default == 0
        },
        w.stage matches Stage::Calibration { offered: on } ==> {
            q matches Request::Confirm { prompt, offered } && prompt@
                == "Run startup latency calibration?"@ && offered == on
        },
        w.stage is Threshold ==> {
            q matches Request::Text { prompt, initial } && prompt@ == "Latency threshold (ms)"@
                && spells(
                initial@,
                match w.config.latency_threshold_ms {
                    Some(ms) => ms as int,
                    None => 500,
                },
            )
        },
        w.stage is Saving ==> q is Save,
        w.stage is Complete ==> q is Finished,
{
    if let Stage::Renderer { renderers } = w.stage {
        if let Request::Select { prompt, items, default } = q {
            let labels = renderer_labels(renderer_texts(renderers@));
            assert(texts(items@) == labels);
            assert(texts(items@).len() == items@.len());
            assert forall|i: int| 0 <= i < renderers@.len() implies (#[trigger] items@[i])@
                == renderers@[i].dev_name@ + " — "@ + renderers@[i].remote_addr@ by {
                assert(texts(items@)[i] == labels[i]);
            }
        }
    }
    if w.stage is Threshold {
        lemma_decimal_spells(
            match w.config.latency_threshold_ms {
                Some(ms) => ms as nat,
                None => 500,
            },
        );
    }
}

/// A depth has as many bits as were asked for.
pub proof fn law_depth_has_its_bits(bits: u16, r: BitDepth)
    requires
        call_ensures(BitDepth::from_bits, (bits,), r),
    ensures
        bits == 16 ==> r is Bits16,
        bits == 24 ==> r is Bits24,
{
}

/// Streams with a header are little endian, and others big endian.
pub proof fn law_wave_is_little_endian(wave: bool, r: Endian)
    requires
        call_ensures(Endian::from_wave_format, (wave,), r),
    ensures
        wave <==> r is Little,
{
}

} // verus!
