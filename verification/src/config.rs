//! The runtime configuration: alignment, backend and locker selections,
//! and the parsed monitor diagonal list.

use vstd::prelude::*;
use crate::text::{parse_diagonal_entry, spec_entry};

verus! {

/// Where the layout sits inside a larger source image: four corners, four
/// edge centers, or centered.
#[derive(Debug, Clone, Copy, PartialEq, Eq, Structural)]
pub enum Alignment {
    Tl,
    Tr,
    Tc,
    Bl,
    Br,
    Bc,
    Rc,
    Lc,
    Ct,
}

/// The lock-screen implementation a sidecar config is generated for.
#[derive(Debug, Clone, Copy, PartialEq, Eq, Structural)]
pub enum Locker {
    Swaylock,
    Hyprlock,
}

/// The name a locker goes by, as it appears in artifact file names.
pub open spec fn spec_locker_name(l: Locker) -> Seq<char> {
    match l {
        Locker::Swaylock => "swaylock"@,
        Locker::Hyprlock => "hyprlock"@,
    }
}

impl Locker {
    /// The locker's name as used in artifact file names.
    pub fn to_string(&self) -> (r: String)
        ensures
            r@ == spec_locker_name(*self),
    {
        match self {
            Locker::Swaylock => "swaylock".to_owned(),
            Locker::Hyprlock => "hyprlock".to_owned(),
        }
    }
}

/// The wallpaper-setter backend the run hands its artifacts to.
#[derive(Debug, Clone, Copy, PartialEq, Eq, Structural)]
pub enum Backend {
    Wpaperd,
    Swaybg,
    Hyprpaper,
}

/// The name a backend goes by, also the binary that is (re)started.
pub open spec fn spec_backend_name(b: Backend) -> Seq<char> {
    match b {
        Backend::Wpaperd => "wpaperd"@,
        Backend::Swaybg => "swaybg"@,
        Backend::Hyprpaper => "hyprpaper"@,
    }
}

impl Backend {
    /// The backend's name, also the binary that is (re)started.
    pub fn to_string(&self) -> (r: String)
        ensures
            r@ == spec_backend_name(*self),
    {
        match self {
            Backend::Wpaperd => "wpaperd".to_owned(),
            Backend::Swaybg => "swaybg".to_owned(),
            Backend::Hyprpaper => "hyprpaper".to_owned(),
        }
    }
}

/// The mutually exclusive startup choice: split an image, or only report
/// what is detectable.
pub struct InitGroup {
    pub image: Option<String>,
    pub info: bool,
}

/// Everything one run depends on, assembled once at startup and treated as
/// immutable afterwards.
pub struct Config {
    pub input_path: String,
    pub raw_input_path: String,
    pub output_path: Option<String>,
    pub backend: Option<Backend>,
    pub locker: Option<Locker>,
    pub bezel: Option<u32>,
    pub diagonals: Vec<(String, u32)>,
    pub ppi: bool,
    pub daemon: bool,
    pub palette: bool,
    pub force_resplit: bool,
    pub info: bool,
    pub align: Option<Alignment>,
    pub pre_path: Option<String>,
    pub post_path: Option<String>,
    pub watch: bool,
}

/// The error configuration assembly can fail with: a malformed entry in
/// the monitor diagonal list.  Reported immediately; the process exits
/// non-zero.
#[derive(Debug, Clone, Copy, PartialEq, Eq, Structural)]
pub enum ConfigError {
    MalformedDiagonalEntry,
}

impl ConfigError {
    /// The single-line description shown to the user.
    pub fn message(&self) -> (r: String)
        ensures
            r@ == "malformed monitor diagonal entry"@,
    {
        "malformed monitor diagonal entry".to_owned()
    }
}

/// Every entry of the diagonal list fits the `"<NAME>:<INCHES>"` format.
pub open spec fn all_entries_wellformed(entries: Seq<String>) -> bool {
    forall|i: int| 0 <= i < entries.len() ==> spec_entry((#[trigger] entries[i])@) is Some
}

/// Parses the full monitor diagonal list.  A malformed entry is an input
/// error, not silently skipped.
pub fn parse_diagonals(entries: &Vec<String>) -> (r: Result<Vec<(String, u32)>, ConfigError>)
    ensures
        r is Ok <==> all_entries_wellformed(entries@),
        r matches Ok(v) ==> v@.len() == entries@.len() && (forall|i: int|
            0 <= i < entries@.len() ==> (spec_entry((#[trigger] entries@[i])@) matches Option::Some(
                e,
            ) && (v@[i].0@, v@[i].1 as int) == e)),
        r is Err ==> r == Result::<Vec<(String, u32)>, ConfigError>::Err(
            ConfigError::MalformedDiagonalEntry,
        ),
{
    let n = entries.len();
    let mut out: Vec<(String, u32)> = Vec::new();
    let mut k: usize = 0;
    while k < n
        invariant
            n == entries.len(),
            k <= n,
            out@.len() == k,
            forall|i: int|
                0 <= i < k ==> (spec_entry((#[trigger] entries@[i])@) matches Option::Some(e) && (
                out@[i].0@,
                out@[i].1 as int,
            ) == e),
        decreases n - k,
    {
        match parse_diagonal_entry(entries[k].as_str()) {
            Option::Some(pair) => {
                out.push(pair);
            },
            Option::None => {
                return Result::Err(ConfigError::MalformedDiagonalEntry);
            },
        }
        k = k + 1;
    }
    Result::Ok(out)
}

impl Config {
    /// Assembles the runtime configuration from validated startup values.
    /// `Ok(None)` means no image was requested: the caller is only asking
    /// for information.  A malformed monitor diagonal entry is an input
    /// error.  `abs_image` is the validated absolute form of the requested
    /// image path.
    pub fn new(
        init: InitGroup,
        abs_image: Option<String>,
        output_path: Option<String>,
        align: Option<Alignment>,
        backend: Option<Backend>,
        locker: Option<Locker>,
        bezel: Option<u32>,
        monitors: Option<Vec<String>>,
        ppi: bool,
        daemon: bool,
        palette: bool,
        pre_path: Option<String>,
        post_path: Option<String>,
        watch: bool,
        force_resplit: bool,
    ) -> (r: Result<Option<Config>, ConfigError>)
        requires
            init.image is Some <==> abs_image is Some,
        ensures
            r is Err <==> (init.image is Some && (monitors matches Option::Some(entries)
                && !all_entries_wellformed(entries@))),
            r matches Ok(copt) ==> (copt is Some <==> init.image is Some),
            r matches Ok(copt) ==> (copt matches Option::Some(c) ==> {
                &&& init.image matches Option::Some(raw) && c.raw_input_path == raw
                &&& abs_image matches Option::Some(abs) && c.input_path == abs
                &&& c.output_path == output_path
                &&& c.align == align
                &&& c.backend == backend
                &&& c.locker == locker
                &&& c.bezel == bezel
                &&& c.ppi == ppi
                &&& c.daemon == daemon
                &&& c.palette == palette
                &&& c.force_resplit == force_resplit
                &&& c.info == init.info
                &&& c.pre_path == pre_path
                &&& c.post_path == post_path
                &&& c.watch == watch
                &&& (match monitors {
                    Option::None => c.diagonals@.len() == 0,
                    Option::Some(entries) => c.diagonals@.len() == entries@.len() && (forall|
                        i: int,
                    |
                        0 <= i < entries@.len() ==> (spec_entry(
                            (#[trigger] entries@[i])@,
                        ) matches Option::Some(e) && ((c.diagonals@[i].0)@, c.diagonals@[i].1
                            as int) == e)),
                })
            }),
    {
        if let Option::Some(raw) = init.image {
            if let Option::Some(abs) = abs_image {
                let diagonals: Vec<(String, u32)> = match &monitors {
                    Option::Some(entries) => match parse_diagonals(entries) {
                        Result::Ok(parsed) => parsed,
                        Result::Err(e) => {
                            return Result::Err(e);
                        },
                    },
                    Option::None => Vec::new(),
                };
                Result::Ok(
                    Option::Some(
                        Config {
                            input_path: abs,
                            raw_input_path: raw,
                            output_path,
                            backend,
                            locker,
                            bezel,
                            diagonals,
                            ppi,
                            daemon,
                            palette,
                            force_resplit,
                            info: init.info,
                            align,
                            pre_path,
                            post_path,
                            watch,
                        },
                    ),
                )
            } else {
                Result::Ok(Option::None)
            }
        } else {
            Result::Ok(Option::None)
        }
    }
}

} // verus!
