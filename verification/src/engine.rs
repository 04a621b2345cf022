//! What an engine is created with: its backends and the settings that its
//! configuration asks for. The calls into the C API that make the engine
//! follow these plans step by step.
use vstd::prelude::*;
use vstd::string::StringExecFns;

use crate::error::{check_c_string, nul_error_message, nul_position, Result};

verus! {

/// Backend type for model execution.
#[derive(Debug, Clone, Copy, PartialEq, Eq, Structural)]
pub enum Backend {
    Cpu,
    Gpu,
}

/// The name by which the C API knows `backend`.
pub open spec fn backend_name(backend: Backend) -> Seq<char> {
    match backend {
        Backend::Cpu => "cpu"@,
        Backend::Gpu => "gpu"@,
    }
}

impl Backend {
    /// The name by which the C API knows this backend.
    pub fn as_str(&self) -> (res: &'static str)
        ensures
            res@ == backend_name(*self),
    {
        match self {
            Backend::Cpu => "cpu",
            Backend::Gpu => "gpu",
        }
    }
}

/// Activation data type for GPU inference.
///
/// Lower precision reduces memory usage during model compilation and
/// inference, at the cost of reduced numerical accuracy.
#[derive(Debug, Clone, Copy, PartialEq, Eq, Structural)]
pub enum ActivationDataType {
    F32,
    F16,
    I16,
    I8,
}

/// The number by which the C API knows an activation data type.
pub open spec fn activation_code(t: ActivationDataType) -> i32 {
    match t {
        ActivationDataType::F32 => 0,
        ActivationDataType::F16 => 1,
        ActivationDataType::I16 => 2,
        ActivationDataType::I8 => 3,
    }
}

impl ActivationDataType {
    /// The number by which the C API knows this type.
    pub fn code(&self) -> (res: i32)
        ensures
            res == activation_code(*self),
    {
        match self {
            ActivationDataType::F32 => 0,
            ActivationDataType::F16 => 1,
            ActivationDataType::I16 => 2,
            ActivationDataType::I8 => 3,
        }
    }
}

/// Configuration options for engine creation; `None` leaves an option to
/// the engine's or the platform's default.
#[derive(Debug, Clone)]
pub struct EngineConfig {
    /// Maximum number of tokens (context window size).
    pub max_num_tokens: Option<i32>,
    /// Activation data type for GPU inference.
    pub activation_data_type: Option<ActivationDataType>,
    /// Backend for the vision encoder; the main backend when `None`.
    pub vision_backend: Option<Backend>,
    /// Backend for the audio encoder; audio input is disabled when `None`.
    pub audio_backend: Option<Backend>,
    /// Directory for caching compiled shaders and weight caches.
    pub cache_dir: Option<String>,
    /// The main backend; the platform's default when `None`.
    pub backend: Option<Backend>,
    /// Whether to enable multi-token prediction by speculative decoding.
    pub enable_speculative_decoding: Option<bool>,
}

impl Default for EngineConfig {
    /// A configuration that leaves every option to its default.
    fn default() -> (res: EngineConfig)
        ensures
            res.max_num_tokens is None,
            res.activation_data_type is None,
            res.vision_backend is None,
            res.audio_backend is None,
            res.cache_dir is None,
            res.backend is None,
            res.enable_speculative_decoding is None,
    {
        EngineConfig {
            max_num_tokens: None,
            activation_data_type: None,
            vision_backend: None,
            audio_backend: None,
            cache_dir: None,
            backend: None,
            enable_speculative_decoding: None,
        }
    }
}

/// The backends that an engine runs on.
#[derive(Debug, Clone, Copy, PartialEq, Eq, Structural)]
pub struct BackendChoice {
    /// The backend of the main model.
    pub main: Backend,
    /// The backend of the vision encoder.
    pub vision: Option<Backend>,
    /// The backend of the audio encoder; `None` disables audio input.
    pub audio: Option<Backend>,
}

/// The main backend: the configured one, else the GPU where the platform
/// offers one and the CPU otherwise.
pub open spec fn main_backend(config: EngineConfig, gpu_available: bool) -> Backend {
    match config.backend {
        Some(b) => b,
        None => if gpu_available {
            Backend::Gpu
        } else {
            Backend::Cpu
        },
    }
}

/// A configured main backend is used as it is, whatever the platform offers.
pub proof fn law_configured_backend_wins(config: EngineConfig, gpu_available: bool, b: Backend)
    requires
        config.backend == Some(b),
    ensures
        main_backend(config, gpu_available) == b,
{
}

/// Left unconfigured, the main backend is the GPU exactly where the platform
/// offers one, whatever the other options say.
pub proof fn law_default_backend_is_platform(config: EngineConfig, gpu_available: bool)
    requires
        config.backend is None,
    ensures
        main_backend(config, gpu_available) == Backend::Gpu <==> gpu_available,
        main_backend(config, gpu_available) == Backend::Cpu <==> !gpu_available,
{
}

/// The main backend depends on the configured backend and the platform
/// alone: two configurations that agree on `backend` get the same one.
pub proof fn law_main_backend_reads_backend_only(
    a: EngineConfig,
    b: EngineConfig,
    gpu_available: bool,
)
    requires
        a.backend == b.backend,
    ensures
        main_backend(a, gpu_available) == main_backend(b, gpu_available),
{
}

/// Chooses the backends of an engine. `gpu_available` says whether the
/// platform's default is the GPU (on Apple platforms, or where GPU libraries
/// were made available).
///
/// The vision encoder runs on the main backend unless configured otherwise;
/// the audio encoder runs only where one is configured.
pub fn choose_backends(config: &EngineConfig, gpu_available: bool) -> (res: BackendChoice)
    ensures
        res.main == main_backend(*config, gpu_available),
        config.backend matches Some(b) ==> res.main == b,
        config.backend is None ==> res.main == (if gpu_available {
            Backend::Gpu
        } else {
            Backend::Cpu
        }),
        res.vision == Some(
            match config.vision_backend {
                Some(v) => v,
                None => res.main,
            },
        ),
        res.audio == config.audio_backend,
{
    let main = match config.backend {
        Some(b) => b,
        None => if gpu_available {
            Backend::Gpu
        } else {
            Backend::Cpu
        },
    };
    let vision = match config.vision_backend {
        Some(v) => v,
        None => main,
    };
    BackendChoice { main, vision: Some(vision), audio: config.audio_backend }
}

/// The backends to retry with after creating an engine on `failed` did not
/// succeed: on Apple platforms, an engine left to the platform's default that
/// failed on the GPU is tried again on the CPU, its vision encoder on the CPU
/// too unless configured otherwise. Elsewhere, or where the backend was
/// configured, there is no retry.
pub fn fallback_choice(config: &EngineConfig, apple: bool, failed: &BackendChoice) -> (res: Option<
    BackendChoice,
>)
    ensures
        res == if apple && config.backend is None && failed.main == Backend::Gpu {
            Some(
                BackendChoice {
                    main: Backend::Cpu,
                    vision: Some(
                        match config.vision_backend {
                            Some(v) => v,
                            None => Backend::Cpu,
                        },
                    ),
                    audio: config.audio_backend,
                },
            )
        } else {
            None
        },
{
    if apple && config.backend.is_none() && failed.main == Backend::Gpu {
        let vision = match config.vision_backend {
            Some(v) => v,
            None => Backend::Cpu,
        };
        Some(BackendChoice { main: Backend::Cpu, vision: Some(vision), audio: config.audio_backend })
    } else {
        None
    }
}

/// A configuration that leaves every option to its default, as `Engine::new`
/// uses it, runs the main model and the vision encoder on the platform's
/// default backend, leaves audio off, and updates no setting.
pub proof fn law_default_config(config: EngineConfig, gpu_available: bool)
    requires
        config.max_num_tokens is None,
        config.activation_data_type is None,
        config.vision_backend is None,
        config.audio_backend is None,
        config.cache_dir is None,
        config.backend is None,
        config.enable_speculative_decoding is None,
    ensures
        main_backend(config, gpu_available) == if gpu_available {
            Backend::Gpu
        } else {
            Backend::Cpu
        },
        planned_updates(config) == Seq::<SettingsUpdate>::empty(),
{
    assert(planned_updates(config) =~= Seq::<SettingsUpdate>::empty());
}

/// What the engine settings are created from, as the C API takes it.
#[derive(Debug, Clone)]
pub struct SettingsRequest {
    /// The path of the `.litertlm` model.
    pub model_path: String,
    /// The name of the main backend.
    pub backend: String,
    /// The name of the vision backend, if any.
    pub vision_backend: Option<String>,
    /// The name of the audio backend, if any.
    pub audio_backend: Option<String>,
}

/// The name of an optional backend.
pub open spec fn optional_name(b: Option<Backend>) -> Option<Seq<char>> {
    match b {
        Some(b) => Some(backend_name(b)),
        None => None,
    }
}

/// The view of an optional string.
pub open spec fn optional_view(s: Option<String>) -> Option<Seq<char>> {
    match s {
        Some(s) => Some(s@),
        None => None,
    }
}

fn backend_string(b: Backend) -> (res: String)
    ensures
        res@ == backend_name(b),
{
    String::from_str(b.as_str())
}

fn optional_backend_string(b: Option<Backend>) -> (res: Option<String>)
    ensures
        optional_view(res) == optional_name(b),
{
    match b {
        Some(b) => Some(backend_string(b)),
        None => None,
    }
}

/// The request that creates the engine settings for the model at
/// `model_path` on the chosen backends. It fails where the path holds a NUL
/// byte, which C cannot be given.
pub fn settings_request(model_path: &str, choice: &BackendChoice) -> (res: Result<SettingsRequest>)
    ensures
        match nul_position(model_path@) {
            Some(pos) => res matches Err(e) && e@ == nul_error_message("model path"@, pos as nat),
            None => res matches Ok(r) && {
                &&& r.model_path@ == model_path@
                &&& r.backend@ == backend_name(choice.main)
                &&& optional_view(r.vision_backend) == optional_name(choice.vision)
                &&& optional_view(r.audio_backend) == optional_name(choice.audio)
            },
        },
{
    check_c_string(model_path, "model path")?;
    Ok(
        SettingsRequest {
            model_path: String::from_str(model_path),
            backend: backend_string(choice.main),
            vision_backend: optional_backend_string(choice.vision),
            audio_backend: optional_backend_string(choice.audio),
        },
    )
}

/// One change made to the engine settings after they are created.
#[derive(Debug, Clone, PartialEq, Eq)]
pub enum SettingsUpdate {
    /// Sets the maximum number of tokens.
    MaxNumTokens(i32),
    /// Sets the activation data type, by its number.
    ActivationDataType(i32),
    /// Sets the cache directory.
    CacheDir(String),
    /// Enables or disables speculative decoding.
    EnableSpeculativeDecoding(bool),
}

/// The updates that `config` asks for, in the order they are made.
pub open spec fn planned_updates(config: EngineConfig) -> Seq<SettingsUpdate> {
    let a: Seq<SettingsUpdate> = match config.max_num_tokens {
        Some(n) => seq![SettingsUpdate::MaxNumTokens(n)],
        None => Seq::empty(),
    };
    let b: Seq<SettingsUpdate> = match config.activation_data_type {
        Some(t) => seq![SettingsUpdate::ActivationDataType(activation_code(t))],
        None => Seq::empty(),
    };
    let c: Seq<SettingsUpdate> = match config.cache_dir {
        Some(d) => seq![SettingsUpdate::CacheDir(d)],
        None => Seq::empty(),
    };
    let d: Seq<SettingsUpdate> = match config.enable_speculative_decoding {
        Some(e) => seq![SettingsUpdate::EnableSpeculativeDecoding(e)],
        None => Seq::empty(),
    };
    a + b + c + d
}

/// The place of an update's kind in the order in which updates are made.
pub open spec fn update_rank(u: SettingsUpdate) -> int {
    match u {
        SettingsUpdate::MaxNumTokens(_) => 0,
        SettingsUpdate::ActivationDataType(_) => 1,
        SettingsUpdate::CacheDir(_) => 2,
        SettingsUpdate::EnableSpeculativeDecoding(_) => 3,
    }
}

/// 1 for a set option, 0 for one left unset.
pub open spec fn count_set<T>(o: Option<T>) -> int {
    if o is Some {
        1
    } else {
        0
    }
}

/// `v` makes one update for each option that `config` sets, with its value,
/// and none for an unset option, the kinds in the order max tokens,
/// activation data type, cache directory, speculative decoding.
pub open spec fn updates_follow_config(v: Seq<SettingsUpdate>, config: EngineConfig) -> bool {
    &&& v.len() == count_set(config.max_num_tokens) + count_set(config.activation_data_type)
        + count_set(config.cache_dir) + count_set(config.enable_speculative_decoding)
    &&& forall|i: int, j: int| 0 <= i < j < v.len() ==> update_rank(v[i]) < update_rank(v[j])
    &&& forall|n: i32| #[trigger]
        v.contains(SettingsUpdate::MaxNumTokens(n)) <==> config.max_num_tokens == Some(n)
    &&& forall|t: ActivationDataType| #[trigger]
        config.activation_data_type == Some(t) ==> v.contains(
            SettingsUpdate::ActivationDataType(activation_code(t)),
        )
    &&& config.activation_data_type is None ==> forall|i: int|
        0 <= i < v.len() ==> !(v[i] is ActivationDataType)
    &&& forall|d: String| #[trigger]
        v.contains(SettingsUpdate::CacheDir(d)) <==> config.cache_dir == Some(d)
    &&& forall|e: bool| #[trigger]
        v.contains(SettingsUpdate::EnableSpeculativeDecoding(e))
            <==> config.enable_speculative_decoding == Some(e)
}

/// Each option that a configuration sets yields its own update, with its
/// value and independently of the other options, in a fixed order.
pub proof fn law_updates_follow_config(config: EngineConfig)
    ensures
        updates_follow_config(planned_updates(config), config),
{
    let v = planned_updates(config);
    let a: Seq<SettingsUpdate> = match config.max_num_tokens {
        Some(n) => seq![SettingsUpdate::MaxNumTokens(n)],
        None => Seq::empty(),
    };
    let b: Seq<SettingsUpdate> = match config.activation_data_type {
        Some(t) => seq![SettingsUpdate::ActivationDataType(activation_code(t))],
        None => Seq::empty(),
    };
    let c: Seq<SettingsUpdate> = match config.cache_dir {
        Some(d) => seq![SettingsUpdate::CacheDir(d)],
        None => Seq::empty(),
    };
    let d: Seq<SettingsUpdate> = match config.enable_speculative_decoding {
        Some(e) => seq![SettingsUpdate::EnableSpeculativeDecoding(e)],
        None => Seq::empty(),
    };
    assert(v == a + b + c + d);
    let ab = a + b;
    let abc = ab + c;
    assert forall|i: int| 0 <= i < v.len() implies {
        &&& (i < a.len() ==> v[i] == a[i] && update_rank(v[i]) == 0)
        &&& (a.len() <= i < ab.len() ==> v[i] == b[i - a.len()] && update_rank(v[i]) == 1)
        &&& (ab.len() <= i < abc.len() ==> v[i] == c[i - ab.len()] && update_rank(v[i]) == 2)
        &&& (abc.len() <= i ==> v[i] == d[i - abc.len()] && update_rank(v[i]) == 3)
    } by {
        if i < a.len() {
            assert(v[i] == a[i]);
        } else if i < ab.len() {
            assert(v[i] == ab[i]);
            assert(ab[i] == b[i - a.len()]);
        } else if i < abc.len() {
            assert(v[i] == abc[i]);
            assert(abc[i] == c[i - ab.len()]);
        } else {
            assert(v[i] == d[i - abc.len()]);
        }
    }
    assert forall|n: i32| #[trigger]
        v.contains(SettingsUpdate::MaxNumTokens(n)) <==> config.max_num_tokens == Some(n) by {
        if config.max_num_tokens == Some(n) {
            assert(v[0] == SettingsUpdate::MaxNumTokens(n));
        }
        if v.contains(SettingsUpdate::MaxNumTokens(n)) {
            let i = choose|i: int| 0 <= i < v.len() && v[i] == SettingsUpdate::MaxNumTokens(n);
            assert(update_rank(v[i]) == 0);
        }
    }
    assert forall|t: ActivationDataType| #[trigger]
        config.activation_data_type == Some(t) implies v.contains(
            SettingsUpdate::ActivationDataType(activation_code(t)),
        ) by {
        assert(v[a.len() as int] == SettingsUpdate::ActivationDataType(activation_code(t)));
    }
    assert forall|dir: String| #[trigger]
        v.contains(SettingsUpdate::CacheDir(dir)) <==> config.cache_dir == Some(dir) by {
        if config.cache_dir == Some(dir) {
            assert(v[ab.len() as int] == SettingsUpdate::CacheDir(dir));
        }
        if v.contains(SettingsUpdate::CacheDir(dir)) {
            let i = choose|i: int| 0 <= i < v.len() && v[i] == SettingsUpdate::CacheDir(dir);
            assert(update_rank(v[i]) == 2);
        }
    }
    assert forall|e: bool| #[trigger]
        v.contains(SettingsUpdate::EnableSpeculativeDecoding(e))
            <==> config.enable_speculative_decoding == Some(e) by {
        if config.enable_speculative_decoding == Some(e) {
            assert(v[abc.len() as int] == SettingsUpdate::EnableSpeculativeDecoding(e));
        }
        if v.contains(SettingsUpdate::EnableSpeculativeDecoding(e)) {
            let i = choose|i: int|
                0 <= i < v.len() && v[i] == SettingsUpdate::EnableSpeculativeDecoding(e);
            assert(update_rank(v[i]) == 3);
        }
    }
}

/// The updates that `config` asks of freshly created engine settings. It
/// fails where the cache directory holds a NUL byte, which C cannot be given.
pub fn settings_updates(config: &EngineConfig) -> (res: Result<Vec<SettingsUpdate>>)
    ensures
        match config.cache_dir {
            Some(d) if nul_position(d@) is Some => res matches Err(e) && e@
                == nul_error_message("cache dir"@, nul_position(d@)->0 as nat),
            _ => res matches Ok(v) && v@ == planned_updates(*config) && updates_follow_config(
                v@,
                *config,
            ),
        },
{
    let mut updates: Vec<SettingsUpdate> = Vec::new();
    if let Some(n) = config.max_num_tokens {
        updates.push(SettingsUpdate::MaxNumTokens(n));
    }
    if let Some(t) = config.activation_data_type {
        updates.push(SettingsUpdate::ActivationDataType(t.code()));
    }
    if let Some(dir) = &config.cache_dir {
        check_c_string(dir.as_str(), "cache dir")?;
        updates.push(SettingsUpdate::CacheDir(dir.clone()));
    }
    if let Some(e) = config.enable_speculative_decoding {
        updates.push(SettingsUpdate::EnableSpeculativeDecoding(e));
    }
    assert(updates@ =~= planned_updates(*config));
    proof {
        law_updates_follow_config(*config);
    }
    Ok(updates)
}

}
