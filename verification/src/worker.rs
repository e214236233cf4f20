//! The run worker's computable core: from configuration, live monitors,
//! the source bytes and the current artifact listing to a complete run
//! plan — resolved layout, cache key, expected artifacts, the
//! regenerate-or-reuse decision, and the partition when regeneration is
//! due.  Reading the inputs and acting on the plan is the shell's job.

use vstd::prelude::*;
use crate::cache::{
    blake3_hex_of, cache_key, cache_valid, decide_regenerate, encode_run_input, expected_names,
    names_subset, spec_expected_names,
};
use crate::config::Config;
use crate::layout::{
    all_names_present, resolve, spec_resolved, LayoutError, MonitorXY, MAX_INPUT_COORD,
    MAX_INPUT_DIM, MAX_MONITORS, MAX_PADDING, NORMALIZED_BOUND,
};
use crate::monitor::Monitor;
use crate::plan::{plan, spec_placement, canvas_w, canvas_h, PartitionPlan, PlanError};

verus! {

/// One run's mutable state: the cache key, the work directory and the
/// exported artifact map, all rebuilt from scratch each run.
pub struct Worker {
    pub hash: String,
    pub workdir: String,
    pub output: Vec<(String, String)>,
}

impl Worker {
    /// A worker with no run performed yet.
    pub fn new() -> (r: Worker)
        ensures
            r.hash@.len() == 0,
            r.workdir@.len() == 0,
            r.output@.len() == 0,
    {
        Worker { hash: String::new(), workdir: String::new(), output: Vec::new() }
    }
}

/// Where one run writes its artifacts: the explicit output directory if
/// one was given, the tool's cache directory under the home directory in
/// daemon or backend operation, the working directory otherwise.
pub fn workdir_for(
    output_path: &Option<String>,
    daemon: bool,
    has_backend: bool,
    home: &String,
    pwd: &String,
) -> (r: String)
    ensures
        match output_path {
            Option::Some(p) => r@ == p@,
            Option::None => if daemon || has_backend {
                r@ == home@ + "/.cache/rwpspread"@
            } else {
                r@ == pwd@
            },
        },
{
    match output_path {
        Option::Some(p) => p.clone(),
        Option::None => {
            if daemon || has_backend {
                let mut s = home.clone();
                s.append("/.cache/rwpspread");
                s
            } else {
                pwd.clone()
            }
        },
    }
}

/// Picks one image path from a directory listing by an externally drawn
/// index; empty listings select nothing.
pub fn select_image(paths: &Vec<String>, pick: usize) -> (r: Option<String>)
    ensures
        r is Some <==> paths@.len() > 0,
        r matches Option::Some(p) ==> p@ == paths@[(pick as int) % (paths@.len() as int)]@,
{
    let n = paths.len();
    if n == 0 {
        Option::None
    } else {
        Option::Some(paths[pick % n].clone())
    }
}

/// The names of the live monitors, in order.
pub open spec fn monitor_names(ms: Seq<Monitor>) -> Seq<String> {
    ms.map_values(|m: Monitor| m.name)
}

/// A reported monitor the solver arithmetic can take: bounded size and
/// position.
pub open spec fn monitor_in_range(m: Monitor) -> bool {
    &&& m.width <= MAX_INPUT_DIM
    &&& m.height <= MAX_INPUT_DIM
    &&& -MAX_INPUT_COORD <= m.x as int <= MAX_INPUT_COORD - MAX_INPUT_DIM
    &&& -MAX_INPUT_COORD <= m.y as int <= MAX_INPUT_COORD - MAX_INPUT_DIM
}

/// Why a run could not be planned.
#[derive(Debug, Clone, Copy, PartialEq, Eq, Structural)]
pub enum RunError {
    Layout(LayoutError),
    Plan(PlanError),
}

impl RunError {
    /// The single-line description shown to the user.
    pub fn message(&self) -> (r: String)
        ensures
            self matches RunError::Layout(e) ==> r@ == "missing monitor definitions!"@,
            self matches RunError::Plan(e) ==> r@ == "crop out of image bounds"@,
    {
        match self {
            RunError::Layout(e) => e.message(),
            RunError::Plan(e) => e.message(),
        }
    }
}

/// Everything one run decides before any file is touched.
#[derive(Debug)]
pub struct RunPlan {
    pub workdir: String,
    pub hash: String,
    pub layout: Vec<MonitorXY>,
    pub expected: Vec<String>,
    pub caches_present: bool,
    pub regenerate: bool,
    pub partition: Option<PartitionPlan>,
}

/// Plans one run: resolves the layout from the live monitors, derives the
/// cache key over configuration, layout and source bytes, compares the
/// artifact listing against the expected set, and decides whether to
/// regenerate; when regeneration is due the partition plan is computed.
///
/// Fails exactly when PPI compensation is requested and some configured
/// diagonal names no live monitor.
#[verifier::rlimit(100)]
pub fn plan_run(
    config: &Config,
    monitors: &Vec<Monitor>,
    source_bytes: &Vec<u8>,
    source_w: u32,
    source_h: u32,
    found_files: &Vec<String>,
    home: &String,
    pwd: &String,
) -> (r: Result<RunPlan, RunError>)
    requires
        monitors.len() <= MAX_MONITORS,
        forall|k: int| 0 <= k < monitors.len() ==> monitor_in_range(#[trigger] monitors@[k]),
        config.bezel matches Option::Some(b) ==> b <= MAX_PADDING,
        source_w <= 0x1000_0000,
        source_h <= 0x1000_0000,
    ensures
        r is Err <==> (config.ppi && !all_names_present(config.diagonals@, monitors@)),
        r matches Err(e) ==> e == RunError::Layout(LayoutError::MissingMonitorDefinitions),
        r matches Ok(rp) ==> {
            &&& rp.hash@ == blake3_hex_of(
                encode_run_input(*config, rp.layout@, source_bytes@),
            )
            &&& rp.hash@.len() == 64
            &&& rp.layout@.len() == monitors@.len()
            &&& rp.layout@ == spec_resolved(
                monitors@,
                if config.ppi {
                    Option::Some(config.diagonals@)
                } else {
                    Option::None
                },
                config.bezel,
            )
            &&& forall|k: int|
                0 <= k < rp.layout@.len() ==> (#[trigger] rp.layout@[k]).initial_width
                    == monitors@[k].width && rp.layout@[k].initial_height == monitors@[k].height
            &&& forall|k: int|
                0 <= k < rp.layout@.len() ==> (#[trigger] rp.layout@[k]).wf() && 0
                    <= rp.layout@[k].x1 && 0 <= rp.layout@[k].y1 && rp.layout@[k].coords_within(
                    NORMALIZED_BOUND as int,
                )
            &&& (match config.output_path {
                Option::Some(p) => rp.workdir@ == p@,
                Option::None => if config.daemon || config.backend is Some {
                    rp.workdir@ == home@ + "/.cache/rwpspread"@
                } else {
                    rp.workdir@ == pwd@
                },
            })
            &&& rp.expected@.len() == spec_expected_names(
                monitor_names(monitors@),
                rp.hash@,
                config.locker,
                config.palette,
            ).len()
            &&& forall|i: int|
                0 <= i < rp.expected@.len() ==> (#[trigger] rp.expected@[i])@
                    == spec_expected_names(
                    monitor_names(monitors@),
                    rp.hash@,
                    config.locker,
                    config.palette,
                )[i]
            &&& rp.caches_present == (names_subset(found_files@, rp.expected@) && names_subset(
                rp.expected@,
                found_files@,
            ))
            &&& rp.regenerate == (config.force_resplit || !rp.caches_present)
            &&& (rp.partition is Some <==> rp.regenerate)
            &&& (rp.partition matches Option::Some(pp) ==> {
                let placed = spec_placement(
                    config.align,
                    source_w as int,
                    source_h as int,
                    canvas_w(rp.layout@),
                    canvas_h(rp.layout@),
                );
                &&& pp.source_width as int == placed.2
                &&& pp.source_height as int == placed.3
                &&& pp.crops@.len() == monitors@.len()
                &&& forall|k: int|
                    0 <= k < pp.crops@.len() ==> (#[trigger] pp.crops@[k]).name@
                        == monitors@[k].name@ && pp.crops@[k].rect.x as int == rp.layout@[k].x1
                        as int + placed.0 && pp.crops@[k].rect.y as int == rp.layout@[k].y1 as int
                        + placed.1 && pp.crops@[k].rect.width == rp.layout@[k].width
                        && pp.crops@[k].rect.height == rp.layout@[k].height
                        && pp.crops@[k].target_width == rp.layout@[k].initial_width
                        && pp.crops@[k].target_height == rp.layout@[k].initial_height
            })
        },
{
    let diagonals_ref: Option<&Vec<(String, u32)>> = if config.ppi {
        Option::Some(&config.diagonals)
    } else {
        Option::None
    };
    let layout = match resolve(monitors, diagonals_ref, &config.bezel) {
        Result::Ok(l) => l,
        Result::Err(e) => {
            return Result::Err(RunError::Layout(e));
        },
    };
    let n = monitors.len();
    let mut names: Vec<String> = Vec::new();
    let mut k: usize = 0;
    while k < n
        invariant
            n == monitors.len(),
            k <= n,
            names@.len() == k,
            forall|i: int| 0 <= i < k ==> (#[trigger] names@[i])@ == monitors@[i].name@,
        decreases n - k,
    {
        names.push(monitors[k].name.clone());
        k = k + 1;
    }
    let hash = cache_key(config, &layout, source_bytes);
    let workdir = workdir_for(
        &config.output_path,
        config.daemon,
        match config.backend {
            Option::Some(_) => true,
            Option::None => false,
        },
        home,
        pwd,
    );
    let expected = expected_names(&names, &hash, &config.locker, config.palette);
    proof {
        assert(names@.len() == monitor_names(monitors@).len());
        assert forall|i: int| 0 <= i < names@.len() implies (#[trigger] names@[i])@
            == monitor_names(monitors@)[i]@ by {
        }
        assert forall|i: int|
            0 <= i < expected@.len() implies (#[trigger] expected@[i])@ == spec_expected_names(
            monitor_names(monitors@),
            hash@,
            config.locker,
            config.palette,
        )[i] by {
            assert(expected@[i]@ == spec_expected_names(
                names@,
                hash@,
                config.locker,
                config.palette,
            )[i]);
            lemma_expected_names_congruent(
                names@,
                monitor_names(monitors@),
                hash@,
                config.locker,
                config.palette,
            );
        }
    }
    let caches_present = cache_valid(found_files, &expected);
    let regenerate = decide_regenerate(config.force_resplit, caches_present);
    let partition: Option<PartitionPlan> = if regenerate {
        match plan(source_w, source_h, &names, &layout, &config.align) {
            Result::Ok(p) => Option::Some(p),
            Result::Err(e) => {
                proof {
                    assert(false);
                }
                return Result::Err(RunError::Plan(e));
            },
        }
    } else {
        Option::None
    };
    Result::Ok(
        RunPlan { workdir, hash, layout, expected, caches_present, regenerate, partition },
    )
}

/// Name lists that read the same give the same expected artifact set.
proof fn lemma_expected_names_congruent(
    a: Seq<String>,
    b: Seq<String>,
    hash: Seq<char>,
    locker: Option<crate::config::Locker>,
    palette: bool,
)
    requires
        a.len() == b.len(),
        forall|i: int| 0 <= i < a.len() ==> (#[trigger] a[i])@ == b[i]@,
    ensures
        spec_expected_names(a, hash, locker, palette) == spec_expected_names(
            b,
            hash,
            locker,
            palette,
        ),
{
    assert(Seq::new(a.len(), |i: int| crate::cache::spec_artifact_name(a[i]@, hash)) =~= Seq::new(
        b.len(),
        |i: int| crate::cache::spec_artifact_name(b[i]@, hash),
    ));
    assert(spec_expected_names(a, hash, locker, palette) =~= spec_expected_names(
        b,
        hash,
        locker,
        palette,
    ));
}

} // verus!
