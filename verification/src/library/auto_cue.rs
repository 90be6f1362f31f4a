//! Cue In, Cue Out and Next Start, derived from where a measured level
//! envelope crosses the operator's thresholds. The measuring, and the
//! thresholds in dBFS, belong to the application; what the station makes of
//! the crossings is decided here.

use vstd::prelude::*;

verus! {

/// Identifies the rules below, stored per track.
pub const ALGORITHM_VERSION: i64 = 1;

/// How far before Cue Out a cold-ending music track hands over.
pub const COLD_END_LEAD_MS: i64 = 500;

/// Cap on how early an automatic Next Start may be.
pub const MAX_SEGUE_LEAD_MS: i64 = 6000;

/// Floor on the distance from Cue In.
pub const MIN_AFTER_CUE_IN_MS: i64 = 500;

/// The trio automatic analysis owns. `None` means file start, file end, and
/// "wait until Cue Out".
#[derive(Clone, Copy, Debug, PartialEq, Eq, Structural)]
pub struct AutoCue {
    pub cue_in_ms: Option<i64>,
    pub cue_out_ms: Option<i64>,
    pub next_start_ms: Option<i64>,
}

impl Default for AutoCue {
    fn default() -> (c: AutoCue)
        ensures
            c == (AutoCue { cue_in_ms: None, cue_out_ms: None, next_start_ms: None }),
    {
        AutoCue { cue_in_ms: None, cue_out_ms: None, next_start_ms: None }
    }
}

/// Where programme audio runs above the silence level, and whether that
/// reaches either edge of the file.
#[derive(Clone, Copy, Debug, PartialEq, Eq, Structural)]
pub struct Span {
    pub from_ms: i64,
    pub to_ms: i64,
    pub starts_at_file_start: bool,
    pub ends_at_file_end: bool,
}

pub open spec fn min(a: int, b: int) -> int {
    if a <= b {
        a
    } else {
        b
    }
}

pub open spec fn max(a: int, b: int) -> int {
    if a >= b {
        a
    } else {
        b
    }
}

/// The Next Start of music between `cue_in` and `cue_out`: where the level
/// last drops below the segue threshold (`level_end`), or half a second
/// before Cue Out for a cold ending, whichever is earlier; never within half
/// a second of Cue In, never more than six seconds before Cue Out, never
/// after it. Material too short for that gets none.
pub open spec fn spec_next_start(cue_in: int, cue_out: int, level_end: Option<i64>) -> Option<int> {
    if cue_out - cue_in <= MIN_AFTER_CUE_IN_MS {
        None
    } else {
        let cold = cue_out - COLD_END_LEAD_MS;
        let raw = match level_end {
            Some(l) => min(l as int, cold),
            None => cold,
        };
        let lower = max(cue_in + MIN_AFTER_CUE_IN_MS, cue_out - MAX_SEGUE_LEAD_MS);
        Some(max(lower, min(raw, cue_out)))
    }
}

/// The Next Start for a track trimmed to `cue_in_ms`..`cue_out_ms` (file
/// start and `duration_ms` where unset).
pub fn next_start(
    cue_in_ms: Option<i64>,
    cue_out_ms: Option<i64>,
    duration_ms: i64,
    level_end: Option<i64>,
) -> (n: Option<i64>)
    requires
        ({
            let cue_in: int = match cue_in_ms {
                Some(v) => v as int,
                None => 0,
            };
            let cue_out: int = match cue_out_ms {
                Some(v) => v as int,
                None => duration_ms as int,
            };
            &&& cue_in + MIN_AFTER_CUE_IN_MS <= i64::MAX
            &&& i64::MIN + MAX_SEGUE_LEAD_MS <= cue_out
            &&& i64::MIN <= cue_out - cue_in <= i64::MAX
        }),
    ensures
        ({
            let cue_in: int = match cue_in_ms {
                Some(v) => v as int,
                None => 0,
            };
            let cue_out: int = match cue_out_ms {
                Some(v) => v as int,
                None => duration_ms as int,
            };
            &&& match n {
                Some(v) => spec_next_start(cue_in, cue_out, level_end) == Some(v as int),
                None => spec_next_start(cue_in, cue_out, level_end) is None,
            }
            // It never precedes Cue In, and stays inside the trimmed span.
            &&& n matches Some(v) ==> cue_in + MIN_AFTER_CUE_IN_MS <= v <= cue_out
            &&& n matches Some(v) ==> cue_out - MAX_SEGUE_LEAD_MS <= v
        }),
{
    let cue_in = match cue_in_ms {
        Some(v) => v,
        None => 0,
    };
    let cue_out = match cue_out_ms {
        Some(v) => v,
        None => duration_ms,
    };
    if cue_out - cue_in <= MIN_AFTER_CUE_IN_MS {
        return None;
    }
    let cold = cue_out - COLD_END_LEAD_MS;
    let raw = match level_end {
        Some(l) => if l <= cold {
            l
        } else {
            cold
        },
        None => cold,
    };
    let a = cue_in + MIN_AFTER_CUE_IN_MS;
    let b = cue_out - MAX_SEGUE_LEAD_MS;
    let lower = if a >= b {
        a
    } else {
        b
    };
    let capped = if raw <= cue_out {
        raw
    } else {
        cue_out
    };
    Some(
        if lower >= capped {
            lower
        } else {
            capped
        },
    )
}

/// The automatic trio for a track whose audio runs over `span` (none: the
/// file is silent). A marker at the very edge of the file is stored as
/// `None`; only music gets a Next Start.
pub fn trio(span: Option<Span>, music: bool, duration_ms: i64, level_end: Option<i64>) -> (c: AutoCue)
    requires
        span matches Some(s) ==> {
            let cue_in: int = if s.starts_at_file_start {
                0
            } else {
                s.from_ms as int
            };
            let cue_out: int = if s.ends_at_file_end {
                duration_ms as int
            } else {
                s.to_ms as int
            };
            &&& cue_in + MIN_AFTER_CUE_IN_MS <= i64::MAX
            &&& i64::MIN + MAX_SEGUE_LEAD_MS <= cue_out
            &&& i64::MIN <= cue_out - cue_in <= i64::MAX
        },
    ensures
        span is None ==> c == AutoCue::default_spec(),
        span matches Some(s) ==> {
            &&& c.cue_in_ms == if s.starts_at_file_start {
                None
            } else {
                Some(s.from_ms)
            }
            &&& c.cue_out_ms == if s.ends_at_file_end {
                None
            } else {
                Some(s.to_ms)
            }
            &&& !music ==> c.next_start_ms is None
            &&& music ==> match c.next_start_ms {
                Some(v) => spec_next_start(
                    if s.starts_at_file_start {
                        0
                    } else {
                        s.from_ms as int
                    },
                    if s.ends_at_file_end {
                        duration_ms as int
                    } else {
                        s.to_ms as int
                    },
                    level_end,
                ) == Some(v as int),
                None => spec_next_start(
                    if s.starts_at_file_start {
                        0
                    } else {
                        s.from_ms as int
                    },
                    if s.ends_at_file_end {
                        duration_ms as int
                    } else {
                        s.to_ms as int
                    },
                    level_end,
                ) is None,
            }
        },
{
    match span {
        None => AutoCue { cue_in_ms: None, cue_out_ms: None, next_start_ms: None },
        Some(s) => {
            let cue_in_ms = if s.starts_at_file_start {
                None
            } else {
                Some(s.from_ms)
            };
            let cue_out_ms = if s.ends_at_file_end {
                None
            } else {
                Some(s.to_ms)
            };
            let next_start_ms = if music {
                next_start(cue_in_ms, cue_out_ms, duration_ms, level_end)
            } else {
                None
            };
            AutoCue { cue_in_ms, cue_out_ms, next_start_ms }
        },
    }
}

impl AutoCue {
    pub open spec fn default_spec() -> AutoCue {
        AutoCue { cue_in_ms: None, cue_out_ms: None, next_start_ms: None }
    }
}

} // verus!
