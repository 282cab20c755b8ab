//! The helper processes the DirectML probe starts: their command lines,
//! their time limits, and what is reported when one fails.
use vstd::prelude::*;
use crate::cli::{parse_cli, CliMode};
use crate::directml::{DirectMlQwenCandidate, DirectMlSplitSenseVoiceCandidate};
use crate::text::{append_str, is_blank, lit, signed_decimal, signed_decimal_string, trim, trim_str, views};

verus! {

broadcast use vstd::string::group_string_axioms;

/// A helper run of this program: the arguments after the program name, how
/// many seconds it may take, and its name in messages.
pub struct ChildProbe {
    pub args: Vec<String>,
    pub timeout_secs: u64,
    pub description: String,
}

pub open spec fn probe_view(p: ChildProbe) -> (Seq<Seq<char>>, u64, Seq<char>) {
    (views(p.args@), p.timeout_secs, p.description@)
}

/// Checks that the DirectML provider can create a session at all.
pub fn provider_child_probe() -> (r: ChildProbe)
    ensures
        probe_view(r) == (
            seq!["--hi-voicer-directml-provider-probe"@],
            15u64,
            "DirectML provider identity child probe"@,
        ),
{
    let args = vec![lit("--hi-voicer-directml-provider-probe")];
    assert(views(args@) =~= seq!["--hi-voicer-directml-provider-probe"@]);
    ChildProbe { args, timeout_secs: 15, description: lit("DirectML provider identity child probe") }
}

/// Creates a session for the single SenseVoice model at `model_path`.
pub fn sensevoice_child_probe(model_path: &str) -> (r: ChildProbe)
    ensures
        probe_view(r) == (
            seq!["--hi-voicer-directml-probe"@, model_path@],
            30u64,
            "DirectML SenseVoice session child probe"@,
        ),
{
    let args = vec![lit("--hi-voicer-directml-probe"), lit(model_path)];
    assert(views(args@) =~= seq!["--hi-voicer-directml-probe"@, model_path@]);
    ChildProbe { args, timeout_secs: 30, description: lit("DirectML SenseVoice session child probe") }
}

/// Runs the split SenseVoice encoder and CTC sessions.
pub fn split_sensevoice_child_probe(candidate: &DirectMlSplitSenseVoiceCandidate) -> (r: ChildProbe)
    ensures
        probe_view(r) == (
            seq![
                "--hi-voicer-directml-sensevoice-chain-smoke"@,
                candidate.encoder@,
                candidate.ctc@,
                candidate.tokenizer@,
            ],
            90u64,
            "DirectML SenseVoice split encoder-to-CTC child probe"@,
        ),
{
    let args = vec![
        lit("--hi-voicer-directml-sensevoice-chain-smoke"),
        candidate.encoder.clone(),
        candidate.ctc.clone(),
        candidate.tokenizer.clone(),
    ];
    assert(views(args@) =~= seq![
        "--hi-voicer-directml-sensevoice-chain-smoke"@,
        candidate.encoder@,
        candidate.ctc@,
        candidate.tokenizer@,
    ]);
    ChildProbe {
        args,
        timeout_secs: 90,
        description: lit("DirectML SenseVoice split encoder-to-CTC child probe"),
    }
}

/// Runs the Qwen3-ASR conv front end, encoder and decoder sessions.
pub fn qwen_child_probe(candidate: &DirectMlQwenCandidate) -> (r: ChildProbe)
    ensures
        probe_view(r) == (
            seq![
                "--hi-voicer-directml-qwen-chain-smoke"@,
                candidate.conv_frontend@,
                candidate.encoder@,
                candidate.decoder@,
            ],
            90u64,
            "DirectML Qwen3-ASR 0.6B conv-to-decoder child probe"@,
        ),
{
    let args = vec![
        lit("--hi-voicer-directml-qwen-chain-smoke"),
        candidate.conv_frontend.clone(),
        candidate.encoder.clone(),
        candidate.decoder.clone(),
    ];
    assert(views(args@) =~= seq![
        "--hi-voicer-directml-qwen-chain-smoke"@,
        candidate.conv_frontend@,
        candidate.encoder@,
        candidate.decoder@,
    ]);
    ChildProbe {
        args,
        timeout_secs: 90,
        description: lit("DirectML Qwen3-ASR 0.6B conv-to-decoder child probe"),
    }
}

/// Every helper run is read back by the helper mode parser as the mode it
/// was started for, with its paths in order and no token limit.
pub proof fn lemma_child_probes_are_understood(
    model_path: Seq<char>,
    a: Seq<char>,
    b: Seq<char>,
    c: Seq<char>,
)
    ensures
        parse_cli(seq!["--hi-voicer-directml-provider-probe"@]) == Some(
            Ok::<(CliMode, Seq<Seq<char>>, Option<Seq<char>>), Seq<char>>(
                (CliMode::DirectMlProviderProbe, Seq::empty(), None),
            ),
        ),
        parse_cli(seq!["--hi-voicer-directml-probe"@, model_path]) == Some(
            Ok::<(CliMode, Seq<Seq<char>>, Option<Seq<char>>), Seq<char>>(
                (CliMode::DirectMlProbe, seq![model_path], None),
            ),
        ),
        parse_cli(seq!["--hi-voicer-directml-sensevoice-chain-smoke"@, a, b, c]) == Some(
            Ok::<(CliMode, Seq<Seq<char>>, Option<Seq<char>>), Seq<char>>(
                (CliMode::SenseVoiceChainSmoke, seq![a, b, c], None),
            ),
        ),
        parse_cli(seq!["--hi-voicer-directml-qwen-chain-smoke"@, a, b, c]) == Some(
            Ok::<(CliMode, Seq<Seq<char>>, Option<Seq<char>>), Seq<char>>(
                (CliMode::QwenChainSmoke, seq![a, b, c], None),
            ),
        ),
{
    reveal_strlit("--hi-voicer-directml-provider-probe");
    reveal_strlit("--hi-voicer-directml-probe");
    reveal_strlit("--hi-voicer-directml-sensevoice-encoder-warmup");
    reveal_strlit("--hi-voicer-directml-sensevoice-ctc-warmup");
    reveal_strlit("--hi-voicer-directml-sensevoice-transcribe-wav");
    reveal_strlit("--hi-voicer-directml-sensevoice-chain-smoke");
    reveal_strlit("--hi-voicer-directml-qwen-chain-smoke");
    let f0 = "--hi-voicer-directml-provider-probe"@;
    let f1 = "--hi-voicer-directml-probe"@;
    let f5 = "--hi-voicer-directml-sensevoice-chain-smoke"@;
    let f6 = "--hi-voicer-directml-qwen-chain-smoke"@;
    assert(f1 != f0) by {
        assert(f1.len() != f0.len());
    }
    assert(crate::cli::cli_mode_of(f0) == Some(CliMode::DirectMlProviderProbe));
    assert(crate::cli::cli_mode_of(f1) == Some(CliMode::DirectMlProbe));
    assert(f5 != f0 && f5 != f1) by {
        assert(f5.len() != f0.len() && f5.len() != f1.len());
    }
    assert(f5 != "--hi-voicer-directml-sensevoice-encoder-warmup"@) by {
        assert(f5.len() != "--hi-voicer-directml-sensevoice-encoder-warmup"@.len());
    }
    assert(f5 != "--hi-voicer-directml-sensevoice-ctc-warmup"@) by {
        assert(f5.len() != "--hi-voicer-directml-sensevoice-ctc-warmup"@.len());
    }
    assert(f5 != "--hi-voicer-directml-sensevoice-transcribe-wav"@) by {
        assert(f5.len() != "--hi-voicer-directml-sensevoice-transcribe-wav"@.len());
    }
    assert(crate::cli::cli_mode_of(f5) == Some(CliMode::SenseVoiceChainSmoke));
    assert(f6.len() == 37);
    assert(f6 != f0 && f6 != f1 && f6 != f5) by {
        assert(f6.len() != f0.len() && f6.len() != f1.len() && f6.len() != f5.len());
    }
    assert(f6 != "--hi-voicer-directml-sensevoice-encoder-warmup"@) by {
        assert(f6.len() != "--hi-voicer-directml-sensevoice-encoder-warmup"@.len());
    }
    assert(f6 != "--hi-voicer-directml-sensevoice-ctc-warmup"@) by {
        assert(f6.len() != "--hi-voicer-directml-sensevoice-ctc-warmup"@.len());
    }
    assert(f6 != "--hi-voicer-directml-sensevoice-transcribe-wav"@) by {
        assert(f6.len() != "--hi-voicer-directml-sensevoice-transcribe-wav"@.len());
    }
    assert(crate::cli::cli_mode_of(f6) == Some(CliMode::QwenChainSmoke));
    let p0 = seq![f0];
    assert(p0.drop_first().take(0) =~= Seq::<Seq<char>>::empty());
    let p1 = seq![f1, model_path];
    assert(p1[0] == f1);
    assert(p1.drop_first() =~= seq![model_path]);
    assert(p1.drop_first().take(1) =~= seq![model_path]);
    let p2 = seq![f5, a, b, c];
    assert(p2[0] == f5);
    assert(p2.drop_first() =~= seq![a, b, c]);
    assert(p2.drop_first().take(3) =~= seq![a, b, c]);
    let p3 = seq![f6, a, b, c];
    assert(p3[0] == f6);
    assert(p3.drop_first() =~= seq![a, b, c]);
    assert(p3.drop_first().take(3) =~= seq![a, b, c]);
}

/// What is reported when a helper run fails: its exit code, or that it was
/// stopped without one, and its trimmed error output, or its trimmed
/// standard output when that is empty.
pub fn child_probe_failure(description: &str, exit_code: Option<i32>, stdout: &str, stderr: &str) -> (r:
    String)
    ensures
        r@ == description@ + " failed with exit code "@ + (match exit_code {
            Some(code) => signed_decimal(code as int),
            None => "terminated by signal or native exception"@,
        }) + ": "@ + (if trim(stderr@).len() == 0 {
            trim(stdout@)
        } else {
            trim(stderr@)
        }),
{
    let mut r = lit(description);
    append_str(&mut r, " failed with exit code ");
    match exit_code {
        Some(code) => append_str(&mut r, signed_decimal_string(code as i64).as_str()),
        None => append_str(&mut r, "terminated by signal or native exception"),
    }
    append_str(&mut r, ": ");
    if is_blank(stderr) {
        append_str(&mut r, trim_str(stdout).as_str());
    } else {
        append_str(&mut r, trim_str(stderr).as_str());
    }
    r
}

} // verus!
