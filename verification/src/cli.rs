//! The command line the app accepts when it is started as a helper process
//! for a DirectML or Qwen3-ASR probe.
use vstd::prelude::*;
use crate::acceleration::{parse_u64, parsed_u64};
use crate::text::{append_str, lit, str_eq, views};

verus! {

broadcast use vstd::string::group_string_axioms;

/// The helper modes, each named by its first argument.
#[derive(PartialEq, Eq, Structural, Debug, Clone, Copy)]
pub enum CliMode {
    DirectMlProviderProbe,
    DirectMlProbe,
    SenseVoiceEncoderWarmup,
    SenseVoiceCtcWarmup,
    SenseVoiceTranscribeWav,
    SenseVoiceChainSmoke,
    QwenChainSmoke,
    QwenWavSmoke,
    DirectMlQwenGreedyWavSmoke,
    CpuQwenGreedyWavSmoke,
}

/// A parsed helper invocation: its mode, its paths in order, and the
/// optional token limit the greedy modes take.
#[derive(Debug, Clone)]
pub struct CliCommand {
    pub mode: CliMode,
    pub paths: Vec<String>,
    pub max_new_tokens: Option<String>,
}

pub open spec fn cli_mode_of(flag: Seq<char>) -> Option<CliMode> {
    if flag == "--hi-voicer-directml-provider-probe"@ {
        Some(CliMode::DirectMlProviderProbe)
    } else if flag == "--hi-voicer-directml-probe"@ {
        Some(CliMode::DirectMlProbe)
    } else if flag == "--hi-voicer-directml-sensevoice-encoder-warmup"@ {
        Some(CliMode::SenseVoiceEncoderWarmup)
    } else if flag == "--hi-voicer-directml-sensevoice-ctc-warmup"@ {
        Some(CliMode::SenseVoiceCtcWarmup)
    } else if flag == "--hi-voicer-directml-sensevoice-transcribe-wav"@ {
        Some(CliMode::SenseVoiceTranscribeWav)
    } else if flag == "--hi-voicer-directml-sensevoice-chain-smoke"@ {
        Some(CliMode::SenseVoiceChainSmoke)
    } else if flag == "--hi-voicer-directml-qwen-chain-smoke"@ {
        Some(CliMode::QwenChainSmoke)
    } else if flag == "--hi-voicer-directml-qwen-wav-smoke"@ {
        Some(CliMode::QwenWavSmoke)
    } else if flag == "--hi-voicer-directml-qwen-greedy-wav-smoke"@ {
        Some(CliMode::DirectMlQwenGreedyWavSmoke)
    } else if flag == "--hi-voicer-cpu-qwen-greedy-wav-smoke"@ {
        Some(CliMode::CpuQwenGreedyWavSmoke)
    } else {
        None
    }
}

/// The paths a mode needs, by the name used when one is missing.
pub open spec fn mode_labels(mode: CliMode) -> Seq<Seq<char>> {
    match mode {
        CliMode::DirectMlProviderProbe => Seq::empty(),
        CliMode::DirectMlProbe => seq!["model"@],
        CliMode::SenseVoiceEncoderWarmup => seq!["encoder"@],
        CliMode::SenseVoiceCtcWarmup => seq!["CTC"@],
        CliMode::SenseVoiceTranscribeWav => seq!["WAV"@, "encoder"@, "CTC"@, "tokenizer"@],
        CliMode::SenseVoiceChainSmoke => seq!["encoder"@, "CTC"@, "tokenizer"@],
        CliMode::QwenChainSmoke => seq!["conv_frontend"@, "encoder"@, "decoder"@],
        _ => seq!["conv_frontend"@, "encoder"@, "decoder"@, "wav"@],
    }
}

pub open spec fn takes_token_limit(mode: CliMode) -> bool {
    mode == CliMode::DirectMlQwenGreedyWavSmoke || mode == CliMode::CpuQwenGreedyWavSmoke
}

/// The meaning of the arguments after the program name: `None` when they do
/// not start with a helper mode; an error naming the first missing path; or
/// the mode, its paths and the optional token limit.
pub open spec fn parse_cli(args: Seq<Seq<char>>) -> Option<
    Result<(CliMode, Seq<Seq<char>>, Option<Seq<char>>), Seq<char>>,
> {
    if args.len() == 0 {
        None
    } else {
        match cli_mode_of(args[0]) {
            None => None,
            Some(m) => {
                let labels = mode_labels(m);
                let rest = args.drop_first();
                if rest.len() < labels.len() {
                    Some(Err("missing "@ + labels[rest.len() as int] + " path"@))
                } else {
                    Some(
                        Ok(
                            (
                                m,
                                rest.take(labels.len() as int),
                                if takes_token_limit(m) && rest.len() > labels.len() {
                                    Some(rest[labels.len() as int])
                                } else {
                                    None
                                },
                            ),
                        ),
                    )
                }
            },
        }
    }
}

fn mode_from_flag(flag: &str) -> (r: Option<CliMode>)
    ensures
        r == cli_mode_of(flag@),
{
    if str_eq(flag, "--hi-voicer-directml-provider-probe") {
        Some(CliMode::DirectMlProviderProbe)
    } else if str_eq(flag, "--hi-voicer-directml-probe") {
        Some(CliMode::DirectMlProbe)
    } else if str_eq(flag, "--hi-voicer-directml-sensevoice-encoder-warmup") {
        Some(CliMode::SenseVoiceEncoderWarmup)
    } else if str_eq(flag, "--hi-voicer-directml-sensevoice-ctc-warmup") {
        Some(CliMode::SenseVoiceCtcWarmup)
    } else if str_eq(flag, "--hi-voicer-directml-sensevoice-transcribe-wav") {
        Some(CliMode::SenseVoiceTranscribeWav)
    } else if str_eq(flag, "--hi-voicer-directml-sensevoice-chain-smoke") {
        Some(CliMode::SenseVoiceChainSmoke)
    } else if str_eq(flag, "--hi-voicer-directml-qwen-chain-smoke") {
        Some(CliMode::QwenChainSmoke)
    } else if str_eq(flag, "--hi-voicer-directml-qwen-wav-smoke") {
        Some(CliMode::QwenWavSmoke)
    } else if str_eq(flag, "--hi-voicer-directml-qwen-greedy-wav-smoke") {
        Some(CliMode::DirectMlQwenGreedyWavSmoke)
    } else if str_eq(flag, "--hi-voicer-cpu-qwen-greedy-wav-smoke") {
        Some(CliMode::CpuQwenGreedyWavSmoke)
    } else {
        None
    }
}

fn labels_of(mode: CliMode) -> (r: Vec<&'static str>)
    ensures
        r@.map_values(|l: &str| l@) == mode_labels(mode),
{
    let r = match mode {
        CliMode::DirectMlProviderProbe => vec![],
        CliMode::DirectMlProbe => vec!["model"],
        CliMode::SenseVoiceEncoderWarmup => vec!["encoder"],
        CliMode::SenseVoiceCtcWarmup => vec!["CTC"],
        CliMode::SenseVoiceTranscribeWav => vec!["WAV", "encoder", "CTC", "tokenizer"],
        CliMode::SenseVoiceChainSmoke => vec!["encoder", "CTC", "tokenizer"],
        CliMode::QwenChainSmoke => vec!["conv_frontend", "encoder", "decoder"],
        _ => vec!["conv_frontend", "encoder", "decoder", "wav"],
    };
    assert(r@.map_values(|l: &str| l@) =~= mode_labels(mode));
    r
}

pub open spec fn command_view(c: CliCommand) -> (CliMode, Seq<Seq<char>>, Option<Seq<char>>) {
    (
        c.mode,
        views(c.paths@),
        match c.max_new_tokens {
            Some(t) => Some(t@),
            None => None,
        },
    )
}

/// Reads the arguments after the program name.
pub fn parse_cli_command(args: &Vec<String>) -> (r: Option<Result<CliCommand, String>>)
    ensures
        match r {
            None => parse_cli(views(args@)) is None,
            Some(Err(m)) => parse_cli(views(args@)) == Some(
                Err::<(CliMode, Seq<Seq<char>>, Option<Seq<char>>), Seq<char>>(m@),
            ),
            Some(Ok(c)) => parse_cli(views(args@)) == Some(
                Ok::<(CliMode, Seq<Seq<char>>, Option<Seq<char>>), Seq<char>>(command_view(c)),
            ),
        },
{
    if args.len() == 0 {
        return None;
    }
    let mode = match mode_from_flag(args[0].as_str()) {
        Some(m) => m,
        None => return None,
    };
    let labels = labels_of(mode);
    let ghost rest = views(args@).drop_first();
    let available = args.len() - 1;
    if available < labels.len() {
        let mut m = lit("missing ");
        append_str(&mut m, labels[available]);
        append_str(&mut m, " path");
        return Some(Err(m));
    }
    let mut paths: Vec<String> = Vec::new();
    let mut i: usize = 0;
    while i < labels.len()
        invariant
            0 <= i <= labels@.len(),
            labels@.len() <= args@.len() - 1,
            rest == views(args@).drop_first(),
            views(paths@) == rest.take(i as int),
        decreases labels@.len() - i,
    {
        let ghost before = views(paths@);
        paths.push(args[i + 1].clone());
        assert(views(paths@) =~= before.push(args@[i + 1]@));
        assert(rest.take(i + 1) =~= rest.take(i as int).push(rest[i as int]));
        i += 1;
    }
    let greedy = match mode {
        CliMode::DirectMlQwenGreedyWavSmoke | CliMode::CpuQwenGreedyWavSmoke => true,
        _ => false,
    };
    let max_new_tokens = if greedy && available > labels.len() {
        Some(args[labels.len() + 1].clone())
    } else {
        None
    };
    Some(Ok(CliCommand { mode, paths, max_new_tokens }))
}

/// The greedy modes' token limit: 8 when none is given, else the given
/// decimal number; `None` when it is not one (`str::parse::<usize>` fails).
pub fn qwen_greedy_token_limit(text: Option<&str>) -> (r: Option<usize>)
    ensures
        match text {
            None => r == Some(8usize),
            Some(t) => r == (match parsed_u64(t@) {
                Some(v) => if v <= usize::MAX {
                    Some(v as usize)
                } else {
                    None
                },
                None => None,
            }),
        },
{
    match text {
        None => Some(8),
        Some(t) => match parse_u64(t) {
            Some(v) => if v as u128 <= usize::MAX as u128 {
                Some(v as usize)
            } else {
                None
            },
            None => None,
        },
    }
}

} // verus!
