//! Which execution provider a transcription uses, and how GPU adapters are
//! read from the system probe and judged.
use vstd::prelude::*;
use serde_json::Value;
use crate::text::{
    append_str, chars_of, contains, contains_exec, eq_ignore_ascii_case, lit, lower_ascii_seq,
    lower_ascii_vec, str_eq, trim, trim_str,
};

verus! {

broadcast use vstd::string::group_string_axioms;

// ---------------------------------------------------------------------------
// Acceleration status
// ---------------------------------------------------------------------------

/// What the settings page shows about CPU and CUDA execution.
#[derive(Debug)]
pub struct AccelerationStatus {
    pub selected_mode: String,
    pub effective_mode: String,
    pub cuda_available: bool,
    pub cuda_device_summary: Option<String>,
    pub cuda_detection_error: Option<String>,
    pub cpu_runtime_installed: bool,
    pub cuda_runtime_installed: bool,
    pub cuda_disabled_reason: Option<String>,
    pub message: String,
}

pub open spec fn opt_str(o: Option<String>) -> Option<Seq<char>> {
    match o {
        Some(s) => Some(s@),
        None => None,
    }
}

/// The effective mode and the message for the given situation.
pub open spec fn acceleration_decision(
    selected_mode: Seq<char>,
    cuda_available: bool,
    cuda_runtime_installed: bool,
    cuda_disabled_reason: Option<Seq<char>>,
    prepare_error: Option<Seq<char>>,
) -> (Seq<char>, Seq<char>) {
    if selected_mode == "cuda"@ {
        if cuda_disabled_reason is Some {
            ("cpu"@, "CUDA is disabled for this session; using CPU: "@ + cuda_disabled_reason->0)
        } else if prepare_error is Some {
            ("cpu"@, "CUDA runtime check failed; using CPU: "@ + prepare_error->0)
        } else if !cuda_available {
            (
                "cpu"@,
                "CUDA is selected, but no NVIDIA CUDA environment was detected; transcription will use CPU."@,
            )
        } else if !cuda_runtime_installed {
            (
                "cpu"@,
                "NVIDIA CUDA was detected, but no local CUDA-capable Sherpa runtime was found; transcription will use CPU. Hi-Voicer will not download CUDA files automatically."@,
            )
        } else {
            ("cuda"@, "CUDA and the CUDA runtime are ready; failures will still fall back to CPU."@)
        }
    } else if prepare_error is Some {
        ("cpu"@, "CUDA runtime check failed; using CPU: "@ + prepare_error->0)
    } else {
        ("cpu"@, "CPU is selected for maximum compatibility; CUDA runtime will not be loaded."@)
    }
}

fn prefixed(prefix: &str, detail: &String) -> (r: String)
    ensures
        r@ == prefix@ + detail@,
{
    let mut r = lit(prefix);
    append_str(&mut r, detail.as_str());
    r
}

/// The status for a selected mode; CUDA is used only when it is selected, not
/// disabled, its runtime check passed, a device was found and its runtime is
/// installed. The probe results are carried over unchanged.
pub fn acceleration_status_from_parts(
    selected_mode: &str,
    cuda_available: bool,
    cuda_device_summary: Option<String>,
    cuda_detection_error: Option<String>,
    cpu_runtime_installed: bool,
    cuda_runtime_installed: bool,
    cuda_disabled_reason: Option<String>,
    prepare_error: Option<String>,
) -> (r: AccelerationStatus)
    ensures
        r.selected_mode@ == selected_mode@,
        (r.effective_mode@, r.message@) == acceleration_decision(
            selected_mode@,
            cuda_available,
            cuda_runtime_installed,
            opt_str(cuda_disabled_reason),
            opt_str(prepare_error),
        ),
        r.cuda_available == cuda_available,
        r.cuda_device_summary == cuda_device_summary,
        r.cuda_detection_error == cuda_detection_error,
        r.cpu_runtime_installed == cpu_runtime_installed,
        r.cuda_runtime_installed == cuda_runtime_installed,
        r.cuda_disabled_reason == cuda_disabled_reason,
{
    let (effective_mode, message) = if str_eq(selected_mode, "cuda") {
        match &cuda_disabled_reason {
            Some(reason) => (
                lit("cpu"),
                prefixed("CUDA is disabled for this session; using CPU: ", reason),
            ),
            None => match &prepare_error {
                Some(error) => (lit("cpu"), prefixed("CUDA runtime check failed; using CPU: ", error)),
                None => {
                    if !cuda_available {
                        (
                            lit("cpu"),
                            lit(
                                "CUDA is selected, but no NVIDIA CUDA environment was detected; transcription will use CPU.",
                            ),
                        )
                    } else if !cuda_runtime_installed {
                        (
                            lit("cpu"),
                            lit(
                                "NVIDIA CUDA was detected, but no local CUDA-capable Sherpa runtime was found; transcription will use CPU. Hi-Voicer will not download CUDA files automatically.",
                            ),
                        )
                    } else {
                        (
                            lit("cuda"),
                            lit(
                                "CUDA and the CUDA runtime are ready; failures will still fall back to CPU.",
                            ),
                        )
                    }
                },
            },
        }
    } else {
        match &prepare_error {
            Some(error) => (lit("cpu"), prefixed("CUDA runtime check failed; using CPU: ", error)),
            None => (
                lit("cpu"),
                lit("CPU is selected for maximum compatibility; CUDA runtime will not be loaded."),
            ),
        }
    };
    AccelerationStatus {
        selected_mode: lit(selected_mode),
        effective_mode,
        cuda_available,
        cuda_device_summary,
        cuda_detection_error,
        cpu_runtime_installed,
        cuda_runtime_installed,
        cuda_disabled_reason,
        message,
    }
}

/// The status reported for a requested mode: DirectML when DirectML is
/// requested, otherwise CPU (CUDA is never probed).
pub fn acceleration_status_for_mode(requested_mode: &str, cpu_runtime_installed: bool) -> (r:
    AccelerationStatus)
    ensures
        requested_mode@ == "directml"@ ==> {
            &&& r.selected_mode@ == "directml"@
            &&& r.effective_mode@ == "directml"@
            &&& !r.cuda_available
            &&& r.cuda_device_summary is None
            &&& r.cuda_detection_error is None
            &&& r.cpu_runtime_installed == cpu_runtime_installed
            &&& !r.cuda_runtime_installed
            &&& r.cuda_disabled_reason is None
            &&& r.message@
                == "DirectML experimental mode is selected. Production transcription currently supports split SenseVoice; Qwen3-ASR uses optimized Sherpa CPU while its DirectML chain remains diagnostic-only."@
        },
        requested_mode@ != "directml"@ ==> {
            &&& r.selected_mode@ == "cpu"@
            &&& (r.effective_mode@, r.message@) == acceleration_decision(
                "cpu"@,
                false,
                false,
                None,
                None,
            )
            &&& !r.cuda_available
            &&& r.cuda_device_summary is None
            &&& r.cuda_detection_error is None
            &&& r.cpu_runtime_installed == cpu_runtime_installed
            &&& !r.cuda_runtime_installed
            &&& r.cuda_disabled_reason is None
        },
{
    if str_eq(requested_mode, "directml") {
        return AccelerationStatus {
            selected_mode: lit("directml"),
            effective_mode: lit("directml"),
            cuda_available: false,
            cuda_device_summary: None,
            cuda_detection_error: None,
            cpu_runtime_installed,
            cuda_runtime_installed: false,
            cuda_disabled_reason: None,
            message: lit(
                "DirectML experimental mode is selected. Production transcription currently supports split SenseVoice; Qwen3-ASR uses optimized Sherpa CPU while its DirectML chain remains diagnostic-only.",
            ),
        };
    }
    acceleration_status_from_parts(
        "cpu",
        false,
        None,
        None,
        cpu_runtime_installed,
        false,
        None,
        None,
    )
}

/// The outcome of running a model once on a short silent recording.
#[derive(Debug, Clone)]
pub struct AccelerationSmokeTestResult {
    pub requested_mode: String,
    pub used_mode: String,
    pub fallback_used: bool,
    pub elapsed_ms: u128,
    pub transcript_preview: String,
    pub message: String,
}

/// The smoke test's report: the requested mode (DirectML or CPU), the mode
/// that ran, the first 80 characters of the trimmed transcript, and a
/// message naming the fallback when there was one.
pub fn acceleration_smoke_test_result(
    requested_mode: &str,
    used_mode: String,
    fallback_reason: Option<String>,
    transcript: &str,
    elapsed_ms: u128,
) -> (r: AccelerationSmokeTestResult)
    ensures
        r.requested_mode@ == (if requested_mode@ == "directml"@ {
            "directml"@
        } else {
            "cpu"@
        }),
        r.used_mode == used_mode,
        !r.fallback_used,
        r.elapsed_ms == elapsed_ms,
        r.transcript_preview@ == trim(transcript@).take(
            if trim(transcript@).len() < 80 {
                trim(transcript@).len() as int
            } else {
                80
            },
        ),
        r.message@ == match fallback_reason {
            Some(reason) => "CPU smoke test completed: "@ + reason@,
            None => "CPU smoke test completed; silent audio does not need recognized text."@,
        },
{
    let requested = if str_eq(requested_mode, "directml") {
        lit("directml")
    } else {
        lit("cpu")
    };
    let trimmed = chars_of(trim_str(transcript).as_str());
    let n = if trimmed.len() < 80 {
        trimmed.len()
    } else {
        80
    };
    let preview = crate::text::string_of_range(trimmed.as_slice(), 0, n);
    assert(trimmed@.subrange(0, n as int) =~= trimmed@.take(n as int));
    let message = match fallback_reason {
        Some(reason) => {
            let mut m = lit("CPU smoke test completed: ");
            append_str(&mut m, reason.as_str());
            m
        },
        None => lit("CPU smoke test completed; silent audio does not need recognized text."),
    };
    AccelerationSmokeTestResult {
        requested_mode: requested,
        used_mode,
        fallback_used: false,
        elapsed_ms,
        transcript_preview: preview,
        message,
    }
}

// ---------------------------------------------------------------------------
// GPU adapters
// ---------------------------------------------------------------------------

/// A display adapter as the system probe reports it.
#[derive(Debug, Clone)]
pub struct DirectMlAdapterInfo {
    pub name: String,
    pub driver_version: Option<String>,
    pub adapter_ram_mb: Option<u64>,
    pub status: Option<String>,
}

/// Adapters that can run DirectML: status `OK` (in any case) or unknown, and
/// not the basic display driver, a remote display or a render-only driver.
pub open spec fn candidate_adapter(name: Seq<char>, status: Option<Seq<char>>) -> bool {
    let lower = lower_ascii_seq(name);
    let status_ok = match status {
        Some(s) => lower_ascii_seq(s) == lower_ascii_seq("OK"@),
        None => true,
    };
    status_ok && !contains(lower, "microsoft basic"@) && !contains(lower, "remote"@) && !contains(
        lower,
        "render driver"@,
    )
}

pub fn is_directml_candidate_adapter(adapter: &DirectMlAdapterInfo) -> (r: bool)
    ensures
        r == candidate_adapter(adapter.name@, opt_str(adapter.status)),
{
    let name = lower_ascii_vec(chars_of(adapter.name.as_str()).as_slice());
    let status_ok = match &adapter.status {
        Some(status) => eq_ignore_ascii_case(status.as_str(), "OK"),
        None => true,
    };
    status_ok && !contains_exec(name.as_slice(), chars_of("microsoft basic").as_slice())
        && !contains_exec(name.as_slice(), chars_of("remote").as_slice()) && !contains_exec(
        name.as_slice(),
        chars_of("render driver").as_slice(),
    )
}

// ---------------------------------------------------------------------------
// Reading the probe's JSON
// ---------------------------------------------------------------------------

/// The members of one probe record that the adapter list is built from;
/// `AdapterRAM` is read both as an unsigned integer and as text, since the
/// probe prints either.
#[derive(Debug, Clone)]
pub struct AdapterJsonRecord {
    pub name: Option<String>,
    pub driver_version: Option<String>,
    pub ram_bytes: Option<u64>,
    pub ram_text: Option<String>,
    pub status: Option<String>,
}

pub type AdapterRecordView = (
    Option<Seq<char>>,
    Option<Seq<char>>,
    Option<u64>,
    Option<Seq<char>>,
    Option<Seq<char>>,
);

pub open spec fn record_view(r: AdapterJsonRecord) -> AdapterRecordView {
    (opt_str(r.name), opt_str(r.driver_version), r.ram_bytes, opt_str(r.ram_text), opt_str(r.status))
}

/// What `serde_json` finds in the probe's output: `None` when it is not JSON;
/// else one record per element of a top-level array, or one record for any
/// other value.
pub uninterp spec fn adapter_json_records(text: Seq<char>) -> Option<Seq<AdapterRecordView>>;

/// Parses `text` with `serde_json::from_str::<serde_json::Value>` and reads
/// each record's `Name`, `DriverVersion`, `AdapterRAM` and `Status` with
/// `Value::get`, `Value::as_str` and `Value::as_u64`. The contract ties the
/// result to the text only through `adapter_json_records`.
#[verifier::external_body]
fn parse_adapter_json(text: &str) -> (r: Option<Vec<AdapterJsonRecord>>)
    ensures
        r matches Some(v) ==> adapter_json_records(text@) == Some(
            v@.map_values(|x: AdapterJsonRecord| record_view(x)),
        ),
        r is None ==> adapter_json_records(text@) is None,
{
    let items = match serde_json::from_str(text).ok()? {
        Value::Array(items) => items,
        item => vec![item],
    };
    let s = |v: &Value, k: &str| v.get(k).and_then(Value::as_str).map(String::from);
    Some(items.iter().map(|v| AdapterJsonRecord {
        name: s(v, "Name"),
        driver_version: s(v, "DriverVersion"),
        ram_bytes: v.get("AdapterRAM").and_then(Value::as_u64),
        ram_text: s(v, "AdapterRAM"),
        status: s(v, "Status"),
    }).collect())
}

pub open spec fn is_ascii_digit(c: char) -> bool {
    '0' <= c && c <= '9'
}

/// The value of a run of decimal digits.
pub open spec fn digits_value(s: Seq<char>) -> nat
    decreases s.len(),
{
    if s.len() == 0 {
        0
    } else {
        digits_value(s.drop_last()) * 10 + ((s.last() as u32) - 48) as nat
    }
}

/// The text after an optional leading `+`.
pub open spec fn unsigned_part(s: Seq<char>) -> Seq<char> {
    if s.len() > 0 && s[0] == '+' {
        s.drop_first()
    } else {
        s
    }
}

pub open spec fn all_digits(d: Seq<char>) -> bool {
    forall|i: int| 0 <= i < d.len() ==> is_ascii_digit(#[trigger] d[i])
}

/// `str::parse::<u64>`: an optional `+`, then one or more ASCII digits, with a
/// value that fits in 64 bits.
pub open spec fn parsed_u64(s: Seq<char>) -> Option<u64> {
    let digits = unsigned_part(s);
    if digits.len() == 0 || !all_digits(digits) || digits_value(digits) > u64::MAX {
        None
    } else {
        Some(digits_value(digits) as u64)
    }
}

proof fn lemma_digits_value_monotone(s: Seq<char>, k: int)
    requires
        0 <= k <= s.len(),
        forall|i: int| 0 <= i < s.len() ==> is_ascii_digit(#[trigger] s[i]),
    ensures
        digits_value(s.take(k)) <= digits_value(s),
    decreases s.len() - k,
{
    if k < s.len() {
        lemma_digits_value_monotone(s, k + 1);
        assert(s.take(k + 1).drop_last() =~= s.take(k));
        assert(is_ascii_digit(s[k]));
    } else {
        assert(s.take(k) =~= s);
    }
}

/// The value of `v[start..]` when it is all ASCII digits and fits in 64 bits.
fn digits_magnitude(v: &[char], start: usize) -> (r: Option<u64>)
    requires
        start <= v@.len(),
    ensures
        r == (if all_digits(v@.skip(start as int)) && digits_value(v@.skip(start as int))
            <= u64::MAX {
            Some(digits_value(v@.skip(start as int)) as u64)
        } else {
            None::<u64>
        }),
{
    let ghost digits = v@.skip(start as int);
    let mut value: u64 = 0;
    let mut i: usize = start;
    assert(v@.subrange(start as int, start as int) =~= Seq::<char>::empty());
    while i < v.len()
        invariant
            start <= i <= v@.len(),
            digits == v@.skip(start as int),
            forall|k: int| start <= k < i ==> is_ascii_digit(#[trigger] v@[k]),
            value == digits_value(v@.subrange(start as int, i as int)),
        decreases v@.len() - i,
    {
        let c = v[i];
        let ghost seen = v@.subrange(start as int, i + 1);
        assert(seen.drop_last() =~= v@.subrange(start as int, i as int));
        if c < '0' || c > '9' {
            assert(digits[i - start] == c);
            assert(!is_ascii_digit(digits[i - start]));
            assert(!all_digits(digits));
            return None;
        }
        let d = (c as u32 - 48) as u64;
        assert(seen.last() == c);
        assert(digits_value(seen) == value * 10 + d);
        if value > (u64::MAX - d) / 10 {
            proof {
                assert(digits_value(seen) > u64::MAX) by (nonlinear_arith)
                    requires
                        digits_value(seen) == value * 10 + d,
                        value > (u64::MAX - d) / 10,
                        d <= 9,
                ;
                if all_digits(digits) {
                    assert(digits.take(seen.len() as int) =~= seen);
                    lemma_digits_value_monotone(digits, seen.len() as int);
                }
            }
            return None;
        }
        assert(value * 10 + d <= u64::MAX) by (nonlinear_arith)
            requires
                value <= (u64::MAX - d) / 10,
                d <= 9,
        ;
        value = value * 10 + d;
        i += 1;
    }
    assert(v@.subrange(start as int, v@.len() as int) =~= digits);
    assert(all_digits(digits)) by {
        assert forall|k: int| 0 <= k < digits.len() implies is_ascii_digit(#[trigger] digits[k]) by {
            assert(digits[k] == v@[start + k]);
        }
    }
    Some(value)
}

pub fn parse_u64(text: &str) -> (r: Option<u64>)
    ensures
        r == parsed_u64(text@),
{
    let v = chars_of(text);
    let start: usize = if v.len() > 0 && v[0] == '+' {
        1
    } else {
        0
    };
    assert(unsigned_part(text@) =~= v@.skip(start as int));
    if start == v.len() {
        return None;
    }
    digits_magnitude(v.as_slice(), start)
}

/// The text after an optional leading `+` or `-`.
pub open spec fn signed_digits(s: Seq<char>) -> Seq<char> {
    if s.len() > 0 && (s[0] == '+' || s[0] == '-') {
        s.drop_first()
    } else {
        s
    }
}

/// `str::parse::<i64>`: an optional sign, then one or more ASCII digits, with
/// a value in the 64-bit signed range.
pub open spec fn parsed_i64(s: Seq<char>) -> Option<i64> {
    let negative = s.len() > 0 && s[0] == '-';
    let digits = signed_digits(s);
    if digits.len() == 0 || !all_digits(digits) {
        None
    } else if negative {
        if digits_value(digits) <= 0x8000_0000_0000_0000 {
            Some((0 - digits_value(digits)) as i64)
        } else {
            None
        }
    } else if digits_value(digits) <= i64::MAX {
        Some(digits_value(digits) as i64)
    } else {
        None
    }
}

pub fn parse_i64(text: &str) -> (r: Option<i64>)
    ensures
        r == parsed_i64(text@),
{
    let v = chars_of(text);
    let negative = v.len() > 0 && v[0] == '-';
    let start: usize = if v.len() > 0 && (v[0] == '+' || v[0] == '-') {
        1
    } else {
        0
    };
    assert(signed_digits(text@) =~= v@.skip(start as int));
    if start == v.len() {
        return None;
    }
    match digits_magnitude(v.as_slice(), start) {
        None => None,
        Some(m) => {
            if negative {
                if m == 0x8000_0000_0000_0000 {
                    Some(i64::MIN)
                } else if m < 0x8000_0000_0000_0000 {
                    Some(0 - (m as i64))
                } else {
                    None
                }
            } else if m <= 0x7fff_ffff_ffff_ffff {
                Some(m as i64)
            } else {
                None
            }
        },
    }
}

/// Adapter memory in whole MiB, from a byte count given as a number or as
/// decimal text.
pub open spec fn ram_mb(bytes: Option<u64>, text: Option<Seq<char>>) -> Option<u64> {
    match bytes {
        Some(b) => Some(b / 1024 / 1024),
        None => match text {
            Some(t) => match parsed_u64(t) {
                Some(b) => Some(b / 1024 / 1024),
                None => None,
            },
            None => None,
        },
    }
}

pub fn adapter_ram_mb_from_value(bytes: Option<u64>, text: Option<&str>) -> (r: Option<u64>)
    ensures
        r == ram_mb(
            bytes,
            match text {
                Some(t) => Some(t@),
                None => None,
            },
        ),
{
    match bytes {
        Some(b) => Some(b / 1024 / 1024),
        None => match text {
            Some(t) => match parse_u64(t) {
                Some(b) => Some(b / 1024 / 1024),
                None => None,
            },
            None => None,
        },
    }
}

pub type AdapterView = (Seq<char>, Option<Seq<char>>, Option<u64>, Option<Seq<char>>);

pub open spec fn adapter_view(a: DirectMlAdapterInfo) -> AdapterView {
    (a.name@, opt_str(a.driver_version), a.adapter_ram_mb, opt_str(a.status))
}

/// The adapter a record describes: one with a non-blank name, trimmed.
pub open spec fn adapter_of_record(r: AdapterRecordView) -> Option<AdapterView> {
    match r.0 {
        Some(name) => if trim(name).len() == 0 {
            None
        } else {
            Some(
                (
                    trim(name),
                    r.1,
                    ram_mb(r.2, r.3),
                    r.4,
                ),
            )
        },
        None => None,
    }
}

pub fn directml_adapter_from_json(record: &AdapterJsonRecord) -> (r: Option<DirectMlAdapterInfo>)
    ensures
        match r {
            Some(a) => adapter_of_record(record_view(*record)) == Some(adapter_view(a)),
            None => adapter_of_record(record_view(*record)) is None,
        },
{
    let name = match &record.name {
        Some(n) => trim_str(n.as_str()),
        None => return None,
    };
    if name.as_str().unicode_len() == 0 {
        return None;
    }
    let driver_version = match &record.driver_version {
        Some(d) => Some(lit(d.as_str())),
        None => None,
    };
    let adapter_ram_mb = adapter_ram_mb_from_value(
        record.ram_bytes,
        match &record.ram_text {
            Some(t) => Some(t.as_str()),
            None => None,
        },
    );
    let status = match &record.status {
        Some(s) => Some(lit(s.as_str())),
        None => None,
    };
    Some(DirectMlAdapterInfo { name, driver_version, adapter_ram_mb, status })
}

pub open spec fn adapters_of_records(rs: Seq<AdapterRecordView>) -> Seq<AdapterView>
    decreases rs.len(),
{
    if rs.len() == 0 {
        Seq::empty()
    } else {
        let prev = adapters_of_records(rs.drop_last());
        match adapter_of_record(rs.last()) {
            Some(a) => prev.push(a),
            None => prev,
        }
    }
}

/// The adapters the probe printed, in order; none when its output is not JSON.
pub fn directml_adapters_from_powershell_json(text: &str) -> (r: Vec<DirectMlAdapterInfo>)
    ensures
        r@.map_values(|a: DirectMlAdapterInfo| adapter_view(a)) == (match adapter_json_records(
            trim(text@),
        ) {
            Some(rs) => adapters_of_records(rs),
            None => Seq::empty(),
        }),
{
    let trimmed = trim_str(text);
    let records = match parse_adapter_json(trimmed.as_str()) {
        Some(rs) => rs,
        None => {
            let r: Vec<DirectMlAdapterInfo> = Vec::new();
            assert(r@.map_values(|a: DirectMlAdapterInfo| adapter_view(a)) =~= Seq::<
                AdapterView,
            >::empty());
            return r;
        },
    };
    let ghost rv = records@.map_values(|x: AdapterJsonRecord| record_view(x));
    let mut out: Vec<DirectMlAdapterInfo> = Vec::new();
    let mut i: usize = 0;
    while i < records.len()
        invariant
            0 <= i <= records@.len(),
            rv == records@.map_values(|x: AdapterJsonRecord| record_view(x)),
            out@.map_values(|a: DirectMlAdapterInfo| adapter_view(a)) == adapters_of_records(
                rv.take(i as int),
            ),
        decreases records@.len() - i,
    {
        assert(rv.take(i + 1).drop_last() =~= rv.take(i as int));
        assert(rv.take(i + 1).last() == record_view(records@[i as int]));
        let ghost before = out@;
        match directml_adapter_from_json(&records[i]) {
            Some(a) => {
                out.push(a);
                assert(out@.map_values(|a: DirectMlAdapterInfo| adapter_view(a)) =~= before.map_values(
                    |a: DirectMlAdapterInfo| adapter_view(a),
                ).push(adapter_view(a)));
            },
            None => {},
        }
        i += 1;
    }
    assert(rv.take(records@.len() as int) =~= rv);
    out
}

} // verus!
