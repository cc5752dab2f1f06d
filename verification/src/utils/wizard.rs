//! The rules of the interactive set-up: network, renderer, capture device,
//! microphone, streaming format and calibration.
//!
//! A [`Wizard`] says by [`Wizard::request`] what is asked for next. The answer is
//! given to the method that the request names.
use crate::enums::streaming::{StreamSize, StreamingFormat};
use crate::utils::configuration::{Configuration, Settings};
use crate::utils::text::{
    contains, copy_all, decimal, mentions, parse_u32, parsed_u32, push_decimal, push_text, texts,
};
use vstd::prelude::*;

verus! {

/// The latency threshold that is offered when none is configured.
pub const DEFAULT_THRESHOLD_MS: u32 = 500;

/// A renderer that was discovered.
#[derive(Clone, Debug)]
pub struct RendererInfo {
    pub dev_name: String,
    pub remote_addr: String,
}

/// Why a set-up ends without a configuration.
#[derive(Clone, Copy, Debug, PartialEq, Eq, Structural)]
pub enum WizardError {
    NoNetworks,
    DiscoveryFailed,
    NoRenderers,
    NoOutputs,
    InvalidThreshold,
}

impl WizardError {
    /// What the user is told.
    pub open spec fn text(self) -> Seq<char> {
        match self {
            WizardError::NoNetworks => "No IPv4 network interfaces found."@,
            WizardError::DiscoveryFailed => "SSDP discovery failed"@,
            WizardError::NoRenderers => "No renderers found. Check network / firewall."@,
            WizardError::NoOutputs => "No audio output devices to capture."@,
            WizardError::InvalidThreshold => "Invalid latency threshold"@,
        }
    }

    /// What the user is told.
    pub fn message(&self) -> (r: String)
        ensures
            r@ == self.text(),
    {
        match self {
            WizardError::NoNetworks => "No IPv4 network interfaces found.".to_string(),
            WizardError::DiscoveryFailed => "SSDP discovery failed".to_string(),
            WizardError::NoRenderers => "No renderers found. Check network / firewall.".to_string(),
            WizardError::NoOutputs => "No audio output devices to capture.".to_string(),
            WizardError::InvalidThreshold => "Invalid latency threshold".to_string(),
        }
    }
}

/// A text in upper case.
pub uninterp spec fn uppercase_of(s: Seq<char>) -> Seq<char>;

/// Calls `str::to_uppercase`, whose result depends on the text alone.
#[verifier::external_body]
fn uppercase(s: &str) -> (r: String)
    ensures
        r@ == uppercase_of(s@),
{
    s.to_uppercase()
}

/// Whether the name of a device, in upper case, is that of a virtual cable.
pub open spec fn is_cable(upper: Seq<char>) -> bool {
    mentions(upper, "CABLE"@) || mentions(upper, "VB-AUDIO"@)
}

/// Whether the name of a device, in upper case, is that of a virtual cable.
pub fn names_cable(upper: &str) -> (r: bool)
    ensures
        r == is_cable(upper@),
{
    contains(upper, "CABLE") || contains(upper, "VB-AUDIO")
}

/// Whether `i` is the first place of a virtual cable, or zero when there is none.
pub open spec fn is_default_output(names: Seq<Seq<char>>, i: int) -> bool {
    let cable = |k: int| is_cable(uppercase_of(names[k]));
    ||| 0 <= i < names.len() && cable(i) && forall|k: int| 0 <= k < i ==> !#[trigger] cable(k)
    ||| i == 0 && forall|k: int| 0 <= k < names.len() ==> !#[trigger] cable(k)
}

/// The capture device that is offered first: the first virtual cable, else the
/// first device.
pub fn default_output(names: &Vec<String>) -> (r: usize)
    ensures
        is_default_output(texts(names@), r as int),
        names@.len() > 0 ==> r < names@.len(),
{
    let mut i: usize = 0;
    while i < names.len()
        invariant
            i <= names@.len(),
            forall|k: int| 0 <= k < i ==> !is_cable(uppercase_of(#[trigger] texts(names@)[k])),
        decreases names@.len() - i,
    {
        let upper: String = uppercase(names[i].as_str());
        if names_cable(upper.as_str()) {
            assert(texts(names@)[i as int] == names@[i as int]@);
            return i;
        }
        i += 1;
    }
    0
}

/// Where a set-up stands.
pub enum Stage {
    /// A network is to be chosen.
    Network { networks: Vec<String> },
    /// Renderers are to be discovered.
    Discovery,
    /// A renderer is to be chosen.
    Renderer { renderers: Vec<RendererInfo> },
    /// The output devices are to be listed.
    Outputs,
    /// The device to capture is to be chosen.
    Output { names: Vec<String> },
    /// The input devices are to be listed.
    Inputs,
    /// The device that listens is to be chosen.
    Input { names: Vec<String> },
    /// The streaming format is to be chosen.
    Format,
    /// Calibration is to be confirmed.
    Calibration { offered: bool },
    /// The latency threshold is to be entered.
    Threshold,
    /// The configuration is to be saved.
    Saving,
    /// The set-up is complete.
    Complete,
}

/// A renderer, with its texts.
pub struct RendererTexts {
    pub dev_name: Seq<char>,
    pub remote_addr: Seq<char>,
}

/// The texts of renderers.
pub open spec fn renderer_texts(renderers: Seq<RendererInfo>) -> Seq<RendererTexts> {
    Seq::new(
        renderers.len(),
        |i: int|
            RendererTexts {
                dev_name: renderers[i].dev_name@,
                remote_addr: renderers[i].remote_addr@,
            },
    )
}

/// Where a set-up stands, with the texts.
pub enum StageState {
    Network { networks: Seq<Seq<char>> },
    Discovery,
    Renderer { renderers: Seq<RendererTexts> },
    Outputs,
    Output { names: Seq<Seq<char>> },
    Inputs,
    Input { names: Seq<Seq<char>> },
    Format,
    Calibration { offered: bool },
    Threshold,
    Saving,
    Complete,
}

impl Stage {
    /// The stage, with the texts.
    pub open spec fn view(&self) -> StageState {
        match self {
            Stage::Network { networks } => StageState::Network { networks: texts(networks@) },
            Stage::Discovery => StageState::Discovery,
            Stage::Renderer { renderers } => StageState::Renderer {
                renderers: renderer_texts(renderers@),
            },
            Stage::Outputs => StageState::Outputs,
            Stage::Output { names } => StageState::Output { names: texts(names@) },
            Stage::Inputs => StageState::Inputs,
            Stage::Input { names } => StageState::Input { names: texts(names@) },
            Stage::Format => StageState::Format,
            Stage::Calibration { offered } => StageState::Calibration { offered: *offered },
            Stage::Threshold => StageState::Threshold,
            Stage::Saving => StageState::Saving,
            Stage::Complete => StageState::Complete,
        }
    }
}

/// A set-up: the settings so far and where it stands.
#[verifier::ext_equal]
pub struct WizardState {
    pub settings: Settings,
    pub stage: StageState,
}

/// The format of each place in the list of formats.
pub open spec fn format_at(i: int) -> StreamingFormat {
    if i == 0 {
        StreamingFormat::Wav
    } else if i == 1 {
        StreamingFormat::Lpcm
    } else {
        StreamingFormat::Rf64
    }
}

/// How the length of a WAV stream is announced after the choice of a format: WAV is
/// sent in chunks, whatever was set before, and other formats change nothing.
pub open spec fn wav_size_for(i: int, before: Option<StreamSize>) -> Option<StreamSize> {
    if format_at(i) is Wav {
        Some(StreamSize::U32maxChunked)
    } else {
        before
    }
}

/// The threshold that is offered.
pub open spec fn offered_threshold(settings: Settings) -> u32 {
    match settings.latency_threshold_ms {
        Some(ms) => ms,
        None => DEFAULT_THRESHOLD_MS,
    }
}

/// The start of a set-up.
pub open spec fn started(settings: Settings, networks: Seq<Seq<char>>) -> Result<
    WizardState,
    WizardError,
> {
    if networks.len() == 0 {
        Err(WizardError::NoNetworks)
    } else {
        Ok(WizardState { settings, stage: StageState::Network { networks } })
    }
}

impl WizardState {
    /// How many places there are to choose from.
    pub open spec fn choices(self) -> nat {
        match self.stage {
            StageState::Network { networks } => networks.len(),
            StageState::Renderer { renderers } => renderers.len(),
            StageState::Output { names } => names.len(),
            StageState::Input { names } => names.len(),
            StageState::Format => 3,
            _ => 0,
        }
    }

    /// After the choice of a network, a renderer or a device.
    pub open spec fn chosen(self, i: int) -> WizardState {
        let s = self.settings;
        match self.stage {
            StageState::Network { networks } => WizardState {
                settings: Settings { last_network: Some(networks[i]), ..s },
                stage: StageState::Discovery,
            },
            StageState::Renderer { renderers } => WizardState {
                settings: Settings {
                    last_renderer: Some(renderers[i].remote_addr),
                    active_renderers: seq![renderers[i].remote_addr],
                    ..s
                },
                stage: StageState::Outputs,
            },
            StageState::Output { names } => WizardState {
                settings: Settings {
                    sound_source: Some(names[i]),
                    sound_source_index: Some(i as i32),
                    ..s
                },
                stage: StageState::Inputs,
            },
            StageState::Input { names } => WizardState {
                settings: Settings { input_device: Some(names[i]), ..s },
                stage: StageState::Format,
            },
            _ => self,
        }
    }

    /// After the discovery of renderers.
    pub open spec fn discovered(self, renderers: Option<Seq<RendererTexts>>) -> Result<
        WizardState,
        WizardError,
    > {
        match renderers {
            None => Err(WizardError::DiscoveryFailed),
            Some(found) => if found.len() == 0 {
                Err(WizardError::NoRenderers)
            } else {
                Ok(WizardState { stage: StageState::Renderer { renderers: found }, ..self })
            },
        }
    }

    /// After the output devices were listed.
    pub open spec fn outputs_listed(self, names: Seq<Seq<char>>) -> Result<
        WizardState,
        WizardError,
    > {
        if names.len() == 0 {
            Err(WizardError::NoOutputs)
        } else {
            Ok(WizardState { stage: StageState::Output { names }, ..self })
        }
    }

    /// After the input devices were listed. Without any, the default input of the
    /// system will listen.
    pub open spec fn inputs_listed(self, names: Seq<Seq<char>>) -> WizardState {
        if names.len() == 0 {
            WizardState {
                settings: Settings { input_device: None, ..self.settings },
                stage: StageState::Format,
            }
        } else {
            WizardState { stage: StageState::Input { names }, ..self }
        }
    }

    /// After the choice of a format, when `saved` says whether calibration was on.
    pub open spec fn format_chosen(self, i: int, saved: Option<bool>) -> WizardState {
        WizardState {
            settings: Settings {
                streaming_format: Some(format_at(i)),
                wav_stream_size: wav_size_for(i, self.settings.wav_stream_size),
                ..self.settings
            },
            stage: StageState::Calibration {
                offered: match saved {
                    Some(on) => on,
                    None => true,
                },
            },
        }
    }

    /// After calibration was switched on or off.
    pub open spec fn confirmed(self, calibrate: bool) -> WizardState {
        WizardState {
            settings: Settings { auto_calibrate: Some(calibrate), ..self.settings },
            stage: if calibrate {
                StageState::Threshold
            } else {
                StageState::Saving
            },
        }
    }

    /// After a threshold was entered.
    pub open spec fn threshold_entered(self, text: Seq<char>) -> Result<WizardState, WizardError> {
        match parsed_u32(text) {
            Some(ms) => Ok(
                WizardState {
                    settings: Settings { latency_threshold_ms: Some(ms), ..self.settings },
                    stage: StageState::Saving,
                },
            ),
            None => Err(WizardError::InvalidThreshold),
        }
    }

    /// After the configuration was saved.
    pub open spec fn saved(self) -> WizardState {
        WizardState { stage: StageState::Complete, ..self }
    }
}

/// A set-up under way.
pub struct Wizard {
    /// The configuration so far.
    pub config: Configuration,
    /// Where the set-up stands.
    pub stage: Stage,
}

/// Whether a step that can fail went from `before` to what `expected` says: to its
/// state, or nowhere when it is an error.
pub open spec fn stepped(
    before: WizardState,
    expected: Result<WizardState, WizardError>,
    after: WizardState,
    r: Result<(), WizardError>,
) -> bool {
    match expected {
        Ok(state) => r == Ok::<(), WizardError>(()) && after == state,
        Err(e) => r == Err::<(), WizardError>(e) && after == before,
    }
}

impl Wizard {
    /// The set-up, with its texts.
    pub open spec fn view(&self) -> WizardState {
        WizardState { settings: self.config@, stage: self.stage@ }
    }

    /// Starts a set-up of `config` with the networks that there are.
    pub fn start(config: Configuration, networks: Vec<String>) -> (r: Result<Wizard, WizardError>)
        ensures
            match started(config@, texts(networks@)) {
                Ok(state) => r matches Ok(wizard) && wizard@ == state,
                Err(e) => r matches Err(error) && error == e,
            },
    {
        if networks.len() == 0 {
            return Err(WizardError::NoNetworks);
        }
        Ok(Wizard { config, stage: Stage::Network { networks } })
    }

    /// How many places there are to choose from.
    pub fn choices(&self) -> (r: usize)
        ensures
            r == self@.choices(),
    {
        match &self.stage {
            Stage::Network { networks } => networks.len(),
            Stage::Renderer { renderers } => renderers.len(),
            Stage::Output { names } => names.len(),
            Stage::Input { names } => names.len(),
            Stage::Format => 3,
            _ => 0,
        }
    }

    /// A network, a renderer or a device was chosen by its place.
    pub fn pick(&mut self, i: usize)
        requires
            i < old(self)@.choices(),
            !(old(self)@.stage is Format),
        ensures
            final(self)@ == old(self)@.chosen(i as int),
    {
        match &self.stage {
            Stage::Network { networks } => {
                self.config.last_network = Some(networks[i].clone());
                self.stage = Stage::Discovery;
            },
            Stage::Renderer { renderers } => {
                let addr: String = renderers[i].remote_addr.clone();
                let mut active: Vec<String> = Vec::new();
                active.push(addr.clone());
                self.config.last_renderer = Some(addr);
                self.config.active_renderers = active;
                self.stage = Stage::Outputs;
            },
            Stage::Output { names } => {
                self.config.sound_source = Some(names[i].clone());
                self.config.sound_source_index = Some(i as i32);
                self.stage = Stage::Inputs;
            },
            Stage::Input { names } => {
                self.config.input_device = Some(names[i].clone());
                self.stage = Stage::Format;
            },
            _ => {},
        }
        assert(self@ =~= old(self)@.chosen(i as int));
    }

    /// The discovery of renderers failed or has found these.
    pub fn discovered(&mut self, renderers: Option<Vec<RendererInfo>>) -> (r: Result<
        (),
        WizardError,
    >)
        requires
            old(self)@.stage is Discovery,
        ensures
            stepped(
                old(self)@,
                old(self)@.discovered(
                    match renderers {
                        Some(found) => Some(renderer_texts(found@)),
                        None => None,
                    },
                ),
                final(self)@,
                r,
            ),
    {
        match renderers {
            None => Err(WizardError::DiscoveryFailed),
            Some(found) => {
                if found.len() == 0 {
                    return Err(WizardError::NoRenderers);
                }
                self.stage = Stage::Renderer { renderers: found };
                Ok(())
            },
        }
    }

    /// These are the output devices.
    pub fn outputs_listed(&mut self, names: Vec<String>) -> (r: Result<(), WizardError>)
        requires
            old(self)@.stage is Outputs,
        ensures
            stepped(old(self)@, old(self)@.outputs_listed(texts(names@)), final(self)@, r),
    {
        if names.len() == 0 {
            return Err(WizardError::NoOutputs);
        }
        self.stage = Stage::Output { names };
        Ok(())
    }

    /// These are the input devices.
    pub fn inputs_listed(&mut self, names: Vec<String>)
        requires
            old(self)@.stage is Inputs,
        ensures
            final(self)@ == old(self)@.inputs_listed(texts(names@)),
    {
        if names.len() == 0 {
            self.config.input_device = None;
            self.stage = Stage::Format;
        } else {
            self.stage = Stage::Input { names };
        }
    }

    /// A format was chosen by its place; `saved` is whether calibration is on in the
    /// configuration that is in force.
    pub fn choose_format(&mut self, i: usize, saved: Option<bool>)
        requires
            old(self)@.stage is Format,
            i < 3,
        ensures
            final(self)@ == old(self)@.format_chosen(i as int, saved),
    {
        let format: StreamingFormat = match i {
            0 => StreamingFormat::Wav,
            1 => StreamingFormat::Lpcm,
            _ => StreamingFormat::Rf64,
        };
        let offered: bool = match saved {
            Some(on) => on,
            None => true,
        };
        self.config.streaming_format = Some(format);
        if format == StreamingFormat::Wav {
            self.config.wav_stream_size = Some(StreamSize::U32maxChunked);
        }
        self.stage = Stage::Calibration { offered };
    }

    /// Calibration was switched on or off.
    pub fn confirm(&mut self, calibrate: bool)
        requires
            old(self)@.stage is Calibration,
        ensures
            final(self)@ == old(self)@.confirmed(calibrate),
    {
        self.config.auto_calibrate = Some(calibrate);
        self.stage = if calibrate {
            Stage::Threshold
        } else {
            Stage::Saving
        };
    }

    /// A threshold was entered.
    pub fn enter_threshold(&mut self, text: &str) -> (r: Result<(), WizardError>)
        requires
            old(self)@.stage is Threshold,
        ensures
            stepped(old(self)@, old(self)@.threshold_entered(text@), final(self)@, r),
    {
        match parse_u32(text) {
            Some(ms) => {
                self.config.latency_threshold_ms = Some(ms);
                self.stage = Stage::Saving;
                Ok(())
            },
            None => Err(WizardError::InvalidThreshold),
        }
    }

    /// The configuration was saved.
    pub fn saved(&mut self)
        requires
            old(self)@.stage is Saving,
        ensures
            final(self)@ == old(self)@.saved(),
    {
        self.stage = Stage::Complete;
    }
}

/// What is asked for next, and of which method the answer is the argument.
pub enum Request {
    /// A choice from a list, for [`Wizard::pick`] or, of a format,
    /// [`Wizard::choose_format`].
    Select { prompt: String, items: Vec<String>, default: usize },
    /// Renderers, for [`Wizard::discovered`].
    Discover,
    /// The output devices, for [`Wizard::outputs_listed`].
    ListOutputs,
    /// The input devices, for [`Wizard::inputs_listed`].
    ListInputs,
    /// A yes or a no, for [`Wizard::confirm`].
    Confirm { prompt: String, offered: bool },
    /// A text, for [`Wizard::enter_threshold`].
    Text { prompt: String, initial: String },
    /// That the configuration is saved, before [`Wizard::saved`].
    Save,
    /// Nothing more.
    Finished,
}

/// The label of a renderer in the list of renderers.
pub open spec fn renderer_label(r: RendererTexts) -> Seq<char> {
    r.dev_name + " — "@ + r.remote_addr
}

/// The labels of renderers.
pub open spec fn renderer_labels(renderers: Seq<RendererTexts>) -> Seq<Seq<char>> {
    Seq::new(renderers.len(), |i: int| renderer_label(renderers[i]))
}

/// The labels of the formats.
pub open spec fn format_labels() -> Seq<Seq<char>> {
    seq!["WAV (recommended for Sonos)"@, "LPCM"@, "RF64"@]
}

impl Request {
    /// Whether this is what is asked for in the given state.
    pub open spec fn fits(&self, state: WizardState) -> bool {
        match state.stage {
            StageState::Network { networks } => self matches Request::Select {
                prompt,
                items,
                default,
            } && prompt@ == "Network interface for SSDP + stream URL"@ && texts(items@) == networks
                && *default == 0,
            StageState::Discovery => self is Discover,
            StageState::Renderer { renderers } => self matches Request::Select {
                prompt,
                items,
                default,
            } && prompt@ == "Speaker / renderer"@ && texts(items@) == renderer_labels(renderers)
                && *default == 0,
            StageState::Outputs => self is ListOutputs,
            StageState::Output { names } => self matches Request::Select {
                prompt,
                items,
                default,
            } && prompt@ == "Loopback capture device (e.g. VB-Cable Output)"@ && texts(items@)
                == names && is_default_output(names, *default as int),
            StageState::Inputs => self is ListInputs,
            StageState::Input { names } => self matches Request::Select {
                prompt,
                items,
                default,
            } && prompt@ == "Input device for latency detection (mic / line-in)"@ && texts(items@)
                == names && *default == 0,
            StageState::Format => self matches Request::Select { prompt, items, default }
                && prompt@ == "Streaming format"@ && texts(items@) == format_labels() && *default
                == 0,
            StageState::Calibration { offered: on } => self matches Request::Confirm {
                prompt,
                offered,
            } && prompt@ == "Run startup latency calibration?"@ && *offered == on,
            StageState::Threshold => self matches Request::Text { prompt, initial } && prompt@
                == "Latency threshold (ms)"@ && initial@ == decimal(
                offered_threshold(state.settings) as nat,
            ),
            StageState::Saving => self is Save,
            StageState::Complete => self is Finished,
        }
    }
}

/// The labels of renderers.
fn labels(renderers: &Vec<RendererInfo>) -> (r: Vec<String>)
    ensures
        texts(r@) == renderer_labels(renderer_texts(renderers@)),
{
    let mut r: Vec<String> = Vec::new();
    let mut i: usize = 0;
    while i < renderers.len()
        invariant
            i <= renderers@.len(),
            r@.len() == i,
            forall|k: int|
                0 <= k < i ==> (#[trigger] r@[k])@ == renderer_label(
                    renderer_texts(renderers@)[k],
                ),
        decreases renderers@.len() - i,
    {
        let mut label: String = String::new();
        push_text(&mut label, renderers[i].dev_name.as_str());
        push_text(&mut label, " — ");
        push_text(&mut label, renderers[i].remote_addr.as_str());
        assert(label@ =~= renderer_label(renderer_texts(renderers@)[i as int]));
        r.push(label);
        i += 1;
    }
    assert(texts(r@) =~= renderer_labels(renderer_texts(renderers@)));
    r
}

impl Wizard {
    /// What is asked for next.
    pub fn request(&self) -> (r: Request)
        ensures
            r.fits(self@),
    {
        match &self.stage {
            Stage::Network { networks } => Request::Select {
                prompt: "Network interface for SSDP + stream URL".to_string(),
                items: copy_all(networks),
                default: 0,
            },
            Stage::Discovery => Request::Discover,
            Stage::Renderer { renderers } => Request::Select {
                prompt: "Speaker / renderer".to_string(),
                items: labels(renderers),
                default: 0,
            },
            Stage::Outputs => Request::ListOutputs,
            Stage::Output { names } => Request::Select {
                prompt: "Loopback capture device (e.g. VB-Cable Output)".to_string(),
                items: copy_all(names),
                default: default_output(names),
            },
            Stage::Inputs => Request::ListInputs,
            Stage::Input { names } => Request::Select {
                prompt: "Input device for latency detection (mic / line-in)".to_string(),
                items: copy_all(names),
                default: 0,
            },
            Stage::Format => {
                let mut items: Vec<String> = Vec::new();
                items.push("WAV (recommended for Sonos)".to_string());
                items.push("LPCM".to_string());
                items.push("RF64".to_string());
                assert(texts(items@) =~= format_labels());
                Request::Select { prompt: "Streaming format".to_string(), items, default: 0 }
            },
            Stage::Calibration { offered } => Request::Confirm {
                prompt: "Run startup latency calibration?".to_string(),
                offered: *offered,
            },
            Stage::Threshold => {
                let offered: u32 = match self.config.latency_threshold_ms {
                    Some(ms) => ms,
                    None => DEFAULT_THRESHOLD_MS,
                };
                let mut initial: String = String::new();
                push_decimal(&mut initial, offered as u128);
                assert(initial@ =~= decimal(offered as nat));
                Request::Text { prompt: "Latency threshold (ms)".to_string(), initial }
            },
            Stage::Saving => Request::Save,
            Stage::Complete => Request::Finished,
        }
    }
}

/// Answers to everything that a set-up may ask for.
pub struct Answers {
    pub networks: Seq<Seq<char>>,
    pub network: int,
    pub renderers: Option<Seq<RendererTexts>>,
    pub renderer: int,
    pub outputs: Seq<Seq<char>>,
    pub output: int,
    pub inputs: Seq<Seq<char>>,
    pub input: int,
    pub format: int,
    pub saved_calibration: Option<bool>,
    pub calibrate: bool,
    pub threshold: Seq<char>,
}

/// A set-up from its start to its end, with these answers.
pub open spec fn whole_run(settings: Settings, a: Answers) -> Result<WizardState, WizardError> {
    match started(settings, a.networks) {
        Err(e) => Err(e),
        Ok(s0) => match s0.chosen(a.network).discovered(a.renderers) {
            Err(e) => Err(e),
            Ok(s1) => match s1.chosen(a.renderer).outputs_listed(a.outputs) {
                Err(e) => Err(e),
                Ok(s2) => {
                    let s3 = s2.chosen(a.output).inputs_listed(a.inputs);
                    let s4 = if s3.stage is Input {
                        s3.chosen(a.input)
                    } else {
                        s3
                    };
                    let s5 = s4.format_chosen(a.format, a.saved_calibration).confirmed(a.calibrate);
                    if s5.stage is Threshold {
                        match s5.threshold_entered(a.threshold) {
                            Err(e) => Err(e),
                            Ok(s6) => Ok(s6.saved()),
                        }
                    } else {
                        Ok(s5.saved())
                    }
                },
            },
        },
    }
}

/// The settings that answers make of the ones before: each answer sets its own, the
/// threshold only with calibration, and the rest stay.
pub open spec fn configured(settings: Settings, a: Answers) -> Settings {
    Settings {
        last_network: Some(a.networks[a.network]),
        last_renderer: Some(a.renderers->0[a.renderer].remote_addr),
        active_renderers: seq![a.renderers->0[a.renderer].remote_addr],
        sound_source: Some(a.outputs[a.output]),
        sound_source_index: Some(a.output as i32),
        input_device: if a.inputs.len() == 0 {
            None
        } else {
            Some(a.inputs[a.input])
        },
        streaming_format: Some(format_at(a.format)),
        wav_stream_size: wav_size_for(a.format, settings.wav_stream_size),
        auto_calibrate: Some(a.calibrate),
        latency_threshold_ms: if a.calibrate {
            parsed_u32(a.threshold)
        } else {
            settings.latency_threshold_ms
        },
        ..settings
    }
}

/// A set-up fails with the first thing that is missing or wrong, and otherwise ends
/// with the settings that were answered.
pub proof fn law_whole_run(settings: Settings, a: Answers)
    ensures
        whole_run(settings, a) == if a.networks.len() == 0 {
            Err::<WizardState, WizardError>(WizardError::NoNetworks)
        } else if a.renderers is None {
            Err(WizardError::DiscoveryFailed)
        } else if a.renderers->0.len() == 0 {
            Err(WizardError::NoRenderers)
        } else if a.outputs.len() == 0 {
            Err(WizardError::NoOutputs)
        } else if a.calibrate && parsed_u32(a.threshold) is None {
            Err(WizardError::InvalidThreshold)
        } else {
            Ok(WizardState { settings: configured(settings, a), stage: StageState::Complete })
        },
{
}

/// A set-up that ends with WAV sends it in chunks, whatever was set before.
pub proof fn law_wav_is_chunked(settings: Settings, a: Answers)
    requires
        whole_run(settings, a) is Ok,
        (whole_run(settings, a)->Ok_0).settings.streaming_format == Some(StreamingFormat::Wav),
    ensures
        (whole_run(settings, a)->Ok_0).settings.wav_stream_size == Some(StreamSize::U32maxChunked),
{
    law_whole_run(settings, a);
}

/// The threshold that is offered, when it is entered as it is, becomes the threshold.
pub proof fn law_offered_threshold_is_accepted(state: WizardState)
    ensures
        state.threshold_entered(decimal(offered_threshold(state.settings) as nat)) == Ok::<
            WizardState,
            WizardError,
        >(
            WizardState {
                settings: Settings {
                    latency_threshold_ms: Some(offered_threshold(state.settings)),
                    ..state.settings
                },
                stage: StageState::Saving,
            },
        ),
{
    crate::utils::text::law_decimal_round_trip(offered_threshold(state.settings) as nat);
}

/// There is an item for each place that can be chosen, and the place that is offered
/// first is one of them.
pub proof fn law_offered_place_is_a_choice(request: Request, state: WizardState)
    requires
        request.fits(state),
        request is Select,
        state.choices() > 0,
    ensures
        (request->items)@.len() == state.choices(),
        request->default < state.choices(),
{
    assert(texts((request->items)@).len() == (request->items)@.len());
}

} // verus!
