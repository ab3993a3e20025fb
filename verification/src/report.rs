//! The benchmark report's data and the merging of the two system probes.
//!
//! The prober reads CPU facts twice — from the system-information library
//! and from a fallback that walks the kernel's own files — and merges the
//! two, preferring a usable probed value and falling back otherwise. The
//! probes themselves are I/O and live with the caller; the merge decisions
//! are specified here exactly. `CpuInfo` is the merged report as the relay
//! endpoint receives it.

use vstd::prelude::*;
use vstd::string::StringExecFns;

verus! {

/// A benchmark report: the machine's description and the two scores,
/// as submitted to the relay endpoint.
#[derive(Debug, Clone)]
pub struct CpuInfo {
    /// Marketing name of the CPU.
    pub cpu_brand: String,
    /// Clock frequency in MHz.
    pub cpu_frequency: u32,
    /// Vendor identifier of the CPU.
    pub cpu_vendor_id: String,
    /// Count of logical CPUs.
    pub number_of_cpus: u32,
    /// Multi-thread score, already formatted.
    pub score_multi_thread: String,
    /// Single-thread score, already formatted.
    pub score_single_thread: String,
    /// Host name of the submitting machine.
    pub system_host_name: String,
    /// Operating-system name and version.
    pub system_info: String,
}

/// A probed vendor string that can be used as is: nonempty and not the
/// placeholder.
pub open spec fn usable_vendor(v: Seq<char>) -> bool {
    v.len() > 0 && v != "Unknown Vendor"@
}

/// The merged vendor: the probed one when usable, else the fallback, else
/// the placeholder.
pub open spec fn vendor_choice(sys: Option<Seq<char>>, fallback: Option<Seq<char>>) -> Seq<char> {
    match sys {
        Option::Some(v) => if usable_vendor(v) {
            v
        } else {
            fallback_vendor(fallback)
        },
        Option::None => fallback_vendor(fallback),
    }
}

/// The vendor when the probe gave nothing usable.
pub open spec fn fallback_vendor(fallback: Option<Seq<char>>) -> Seq<char> {
    match fallback {
        Option::Some(f) => f,
        Option::None => "Unknown Vendor"@,
    }
}

/// Merges the two probes' vendor strings.
pub fn select_vendor(sys_vendor_id: Option<String>, fallback: Option<String>) -> (r: String)
    ensures
        r@ == vendor_choice(sys_vendor_id.deep_view(), fallback.deep_view()),
{
    let placeholder = String::from_str("Unknown Vendor");
    match sys_vendor_id {
        Option::Some(v) => {
            if !v.as_str().is_empty() && !(v == placeholder) {
                v
            } else {
                match fallback {
                    Option::Some(f) => f,
                    Option::None => placeholder,
                }
            }
        },
        Option::None => {
            match fallback {
                Option::Some(f) => f,
                Option::None => placeholder,
            }
        },
    }
}

/// The merged brand: the probed one when nonempty, else the fallback.
pub open spec fn brand_choice(
    sys: Option<Seq<char>>,
    fallback: Option<Seq<char>>,
) -> Option<Seq<char>> {
    match sys {
        Option::Some(b) => if b.len() > 0 {
            Option::Some(b)
        } else {
            fallback
        },
        Option::None => fallback,
    }
}

/// Merges the two probes' brand strings.
pub fn select_brand(sys_brand: Option<String>, fallback: Option<String>) -> (r: Option<String>)
    ensures
        r.deep_view() == brand_choice(sys_brand.deep_view(), fallback.deep_view()),
{
    match sys_brand {
        Option::Some(b) => {
            if !b.as_str().is_empty() {
                Option::Some(b)
            } else {
                fallback
            }
        },
        Option::None => fallback,
    }
}

/// Merges the two probes' frequencies: a positive probed frequency wins,
/// else the fallback.
pub fn select_frequency(sys_frequency: Option<u64>, fallback: Option<u64>) -> (r: Option<u64>)
    ensures
        r == (match sys_frequency {
            Option::Some(f) => if f > 0 {
                Option::Some(f)
            } else {
                fallback
            },
            Option::None => fallback,
        }),
{
    match sys_frequency {
        Option::Some(f) => {
            if f > 0 {
                Option::Some(f)
            } else {
                fallback
            }
        },
        Option::None => fallback,
    }
}

/// Merges the two probes' CPU counts: a zero count from the probe means it
/// saw nothing, and the fallback stands in.
pub fn select_cpu_count(probed: usize, fallback: usize) -> (r: usize)
    ensures
        r == (if probed == 0 {
            fallback
        } else {
            probed
        }),
{
    if probed == 0 {
        fallback
    } else {
        probed
    }
}

/// The largest entry of `s`; `0` for an empty sequence.
pub open spec fn max_of(s: Seq<u64>) -> u64
    decreases s.len(),
{
    if s.len() == 0 {
        0
    } else if s.last() >= max_of(s.drop_last()) {
        s.last()
    } else {
        max_of(s.drop_last())
    }
}

/// The largest of the per-CPU frequencies read from the kernel, converted
/// from kHz to MHz; `None` when nothing positive was read.
pub fn max_frequency_mhz(freqs_khz: &Vec<u64>) -> (r: Option<u64>)
    ensures
        r == (if max_of(freqs_khz@) > 0 {
            Option::Some(max_of(freqs_khz@) / 1000)
        } else {
            Option::None::<u64>
        }),
{
    let mut mx: u64 = 0;
    let mut i: usize = 0;
    while i < freqs_khz.len()
        invariant
            i <= freqs_khz@.len(),
            mx == max_of(freqs_khz@.take(i as int)),
        decreases freqs_khz@.len() - i,
    {
        let f = freqs_khz[i];
        if f > mx {
            mx = f;
        }
        i += 1;
        proof {
            let s = freqs_khz@;
            assert(s.take(i as int).drop_last() =~= s.take(i - 1));
            assert(s.take(i as int).last() == s[i - 1]);
        }
    }
    proof {
        assert(freqs_khz@.take(freqs_khz@.len() as int) =~= freqs_khz@);
    }
    if mx > 0 {
        Option::Some(mx / 1000)
    } else {
        Option::None
    }
}

/// How the submitting client reports the relay's reply: a label and a
/// terminal color code, green for success and red for failure, and the text
/// to show — the relay's message or error when present, a fixed fallback
/// otherwise.
pub fn response_summary(success: bool, message: Option<String>, error: Option<String>) -> (r: (
    String,
    String,
    String,
))
    ensures
        success ==> r.0@ == "Message"@ && r.1@ == "32"@,
        !success ==> r.0@ == "Error"@ && r.1@ == "31"@,
        success ==> r.2@ == (match message {
            Option::Some(m) => m@,
            Option::None => "Success"@,
        }),
        !success ==> r.2@ == (match error {
            Option::Some(e) => e@,
            Option::None => "Unknown error"@,
        }),
{
    if success {
        let content = match message {
            Option::Some(m) => m,
            Option::None => String::from_str("Success"),
        };
        (String::from_str("Message"), String::from_str("32"), content)
    } else {
        let content = match error {
            Option::Some(e) => e,
            Option::None => String::from_str("Unknown error"),
        };
        (String::from_str("Error"), String::from_str("31"), content)
    }
}

} // verus!
