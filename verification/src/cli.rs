//! The command line as plain values, and how it compiles into `MARTIN_*` environment settings.

use vstd::prelude::*;
use crate::text::decimal;

verus! {

/// Subcommands (none required: a bare `martin [SHOW]` runs the show).
#[derive(Debug, Clone, Copy, PartialEq, Eq)]
pub enum Commands {
    /// Run the stdio MCP server proxying to a `--serve` bridge (optionally on this port).
    Mcp { port: Option<u16> },
}

/// `martin [SHOW] [flags]`: what a command line asked for.
#[derive(Debug)]
pub struct Cli {
    /// A `.show` file to play.
    pub show: Option<String>,
    /// Shorthand for `productions/<NAME>/<NAME>.show`.
    pub production: Option<String>,
    /// Record the whole timeline into a frame directory.
    pub record: Option<String>,
    /// One headless screenshot to this path.
    pub shot: Option<String>,
    /// When to take `--shot`, in seconds, as the command line's number prints.
    pub shot_at: Option<String>,
    /// Contact sheet: comma-separated times.
    pub shots: Option<String>,
    /// Render this many frames headless and log the render-only fps.
    pub bench: Option<u32>,
    /// Print the resolved timeline and exit.
    pub validate: bool,
    /// Make a score phase/bar typo fatal.
    pub strict: bool,
    /// Run the HTTP control bridge (optional port).
    pub serve: Option<Option<u16>>,
    /// Render the synth to a WAV and exit.
    pub synth_wav: Option<String>,
    /// Write the built-in score as an editable tracker file and exit.
    pub dump_score: Option<String>,
    /// Start borderless-fullscreen.
    pub fullscreen: bool,
    /// Start in a window.
    pub windowed: bool,
    pub command: Option<Commands>,
}

impl Default for Cli {
    fn default() -> (r: Cli)
        ensures
            r.show is None && r.production is None && r.record is None && r.shot is None,
            r.shot_at is None && r.shots is None && r.bench is None && r.serve is None,
            r.synth_wav is None && r.dump_score is None && r.command is None,
            !r.validate && !r.strict && !r.fullscreen && !r.windowed,
    {
        Cli {
            show: None,
            production: None,
            record: None,
            shot: None,
            shot_at: None,
            shots: None,
            bench: None,
            validate: false,
            strict: false,
            serve: None,
            synth_wav: None,
            dump_score: None,
            fullscreen: false,
            windowed: false,
            command: None,
        }
    }
}

/// An environment setting as character sequences.
pub type EnvPair = (Seq<char>, Seq<char>);

pub open spec fn pairs_view(v: Seq<(String, String)>) -> Seq<EnvPair> {
    v.map_values(|p: (String, String)| (p.0@, p.1@))
}

pub open spec fn set_if(key: Seq<char>, v: Option<String>) -> Seq<EnvPair> {
    match v {
        Some(s) => seq![(key, s@)],
        None => Seq::empty(),
    }
}

pub open spec fn flag(key: Seq<char>, on: bool) -> Seq<EnvPair> {
    if on {
        seq![(key, "1"@)]
    } else {
        Seq::empty()
    }
}

/// `productions/<NAME>/<NAME>.show`.
pub open spec fn production_show(name: Seq<char>) -> Seq<char> {
    "productions/"@ + name + "/"@ + name + ".show"@
}

pub open spec fn env_production(cli: Cli) -> Seq<EnvPair> {
    match cli.production {
        Some(n) => seq![("MARTIN_SHOW"@, production_show(n@))],
        None => Seq::empty(),
    }
}

pub open spec fn env_paths(cli: Cli) -> Seq<EnvPair> {
    set_if("MARTIN_SHOW"@, cli.show) + set_if("MARTIN_RECORD"@, cli.record) + set_if(
        "MARTIN_SHOT"@,
        cli.shot,
    ) + set_if("MARTIN_SHOT_AT"@, cli.shot_at) + set_if("MARTIN_SHOTS"@, cli.shots)
}

pub open spec fn env_checks(cli: Cli) -> Seq<EnvPair> {
    let bench = match cli.bench {
        Some(n) => seq![("MARTIN_BENCH"@, decimal(n as nat))],
        None => Seq::empty(),
    };
    bench + flag("MARTIN_VALIDATE"@, cli.validate) + flag("MARTIN_SCORE_STRICT"@, cli.strict)
}

pub open spec fn env_outputs(cli: Cli) -> Seq<EnvPair> {
    let serve = match cli.serve {
        Some(Some(p)) => seq![("MARTIN_SERVE"@, decimal(p as nat))],
        Some(None) => seq![("MARTIN_SERVE"@, "1"@)],
        None => Seq::empty(),
    };
    serve + set_if("MARTIN_SYNTH_WAV"@, cli.synth_wav) + set_if("MARTIN_SCORE_DUMP"@, cli.dump_score)
}

pub open spec fn env_window(cli: Cli) -> Seq<EnvPair> {
    if cli.fullscreen {
        seq![("MARTIN_FULLSCREEN"@, "1"@)]
    } else if cli.windowed {
        seq![("MARTIN_FULLSCREEN"@, "0"@)]
    } else {
        Seq::empty()
    }
}

/// The `MARTIN_*` settings a command line compiles to, in the order they are applied (a later
/// setting of the same variable overwrites an earlier one).
pub open spec fn cli_env(cli: Cli) -> Seq<EnvPair> {
    env_production(cli) + env_paths(cli) + env_checks(cli) + env_outputs(cli) + env_window(cli)
}

fn push_pair(out: &mut Vec<(String, String)>, key: &str, value: String)
    ensures
        pairs_view(final(out)@) == pairs_view(old(out)@).push((key@, value@)),
{
    out.push((String::from_str(key), value));
    assert(pairs_view(out@) =~= pairs_view(old(out)@).push((key@, value@)));
}

fn push_opt(out: &mut Vec<(String, String)>, key: &str, value: &Option<String>)
    ensures
        pairs_view(final(out)@) == pairs_view(old(out)@) + set_if(key@, *value),
{
    match value {
        Some(s) => push_pair(out, key, s.clone()),
        None => {},
    }
    assert(pairs_view(out@) =~= pairs_view(old(out)@) + set_if(key@, *value));
}

fn push_flag(out: &mut Vec<(String, String)>, key: &str, on: bool)
    ensures
        pairs_view(final(out)@) == pairs_view(old(out)@) + flag(key@, on),
{
    if on {
        push_pair(out, key, String::from_str("1"));
    }
    assert(pairs_view(out@) =~= pairs_view(old(out)@) + flag(key@, on));
}

fn push_production(out: &mut Vec<(String, String)>, cli: &Cli)
    ensures
        pairs_view(final(out)@) == pairs_view(old(out)@) + env_production(*cli),
{
    match &cli.production {
        Some(name) => {
            let mut v = String::from_str("productions/");
            v.append(name.as_str());
            v.append("/");
            v.append(name.as_str());
            v.append(".show");
            push_pair(out, "MARTIN_SHOW", v);
        },
        None => {},
    }
    assert(pairs_view(out@) =~= pairs_view(old(out)@) + env_production(*cli));
}

fn push_paths(out: &mut Vec<(String, String)>, cli: &Cli)
    ensures
        pairs_view(final(out)@) == pairs_view(old(out)@) + env_paths(*cli),
{
    push_opt(out, "MARTIN_SHOW", &cli.show);
    push_opt(out, "MARTIN_RECORD", &cli.record);
    push_opt(out, "MARTIN_SHOT", &cli.shot);
    push_opt(out, "MARTIN_SHOT_AT", &cli.shot_at);
    push_opt(out, "MARTIN_SHOTS", &cli.shots);
    assert(pairs_view(out@) =~= pairs_view(old(out)@) + env_paths(*cli));
}

fn push_checks(out: &mut Vec<(String, String)>, cli: &Cli)
    ensures
        pairs_view(final(out)@) == pairs_view(old(out)@) + env_checks(*cli),
{
    match cli.bench {
        Some(n) => push_pair(out, "MARTIN_BENCH", crate::text::decimal_string(n as u64)),
        None => {},
    }
    push_flag(out, "MARTIN_VALIDATE", cli.validate);
    push_flag(out, "MARTIN_SCORE_STRICT", cli.strict);
    assert(pairs_view(out@) =~= pairs_view(old(out)@) + env_checks(*cli));
}

fn push_outputs(out: &mut Vec<(String, String)>, cli: &Cli)
    ensures
        pairs_view(final(out)@) == pairs_view(old(out)@) + env_outputs(*cli),
{
    match cli.serve {
        Some(Some(p)) => push_pair(out, "MARTIN_SERVE", crate::text::decimal_string(p as u64)),
        Some(None) => push_pair(out, "MARTIN_SERVE", String::from_str("1")),
        None => {},
    }
    push_opt(out, "MARTIN_SYNTH_WAV", &cli.synth_wav);
    push_opt(out, "MARTIN_SCORE_DUMP", &cli.dump_score);
    assert(pairs_view(out@) =~= pairs_view(old(out)@) + env_outputs(*cli));
}

fn push_window(out: &mut Vec<(String, String)>, cli: &Cli)
    ensures
        pairs_view(final(out)@) == pairs_view(old(out)@) + env_window(*cli),
{
    if cli.fullscreen {
        push_pair(out, "MARTIN_FULLSCREEN", String::from_str("1"));
    } else if cli.windowed {
        push_pair(out, "MARTIN_FULLSCREEN", String::from_str("0"));
    }
    assert(pairs_view(out@) =~= pairs_view(old(out)@) + env_window(*cli));
}

/// The `MARTIN_*` environment settings a command line sets, as ordered `(variable, value)` pairs:
/// `main` applies them with overwrite before the show/bundle expansion, so a flag beats both.
/// `--production` comes before the positional show, so the positional wins when both are given.
pub fn apply_cli(cli: &Cli) -> (out: Vec<(String, String)>)
    ensures
        pairs_view(out@) == cli_env(*cli),
{
    let mut out: Vec<(String, String)> = Vec::new();
    assert(pairs_view(out@) =~= Seq::<EnvPair>::empty());
    push_production(&mut out, cli);
    push_paths(&mut out, cli);
    push_checks(&mut out, cli);
    push_outputs(&mut out, cli);
    push_window(&mut out, cli);
    assert(pairs_view(out@) =~= cli_env(*cli));
    out
}

/// The value the last setting of `key` leaves, if any setting names it.
pub open spec fn last_value(pairs: Seq<EnvPair>, key: Seq<char>) -> Option<Seq<char>>
    decreases pairs.len(),
{
    if pairs.len() == 0 {
        None
    } else if pairs.last().0 == key {
        Some(pairs.last().1)
    } else {
        last_value(pairs.drop_last(), key)
    }
}

/// No setting in `pairs` names `key`.
pub open spec fn avoids(pairs: Seq<EnvPair>, key: Seq<char>) -> bool {
    forall|i: int| 0 <= i < pairs.len() ==> (#[trigger] pairs[i]).0 != key
}

proof fn lemma_key_lengths()
    ensures
        "MARTIN_SHOW"@.len() == 11,
        "MARTIN_RECORD"@.len() == 13,
        "MARTIN_SHOT"@.len() == 11,
        "MARTIN_SHOT_AT"@.len() == 14,
        "MARTIN_SHOTS"@.len() == 12,
        "MARTIN_BENCH"@.len() == 12,
        "MARTIN_VALIDATE"@.len() == 15,
        "MARTIN_SCORE_STRICT"@.len() == 19,
        "MARTIN_SERVE"@.len() == 12,
        "MARTIN_SYNTH_WAV"@.len() == 16,
        "MARTIN_SCORE_DUMP"@.len() == 17,
        "MARTIN_FULLSCREEN"@.len() == 17,
{
    reveal_strlit("MARTIN_SHOW");
    reveal_strlit("MARTIN_RECORD");
    reveal_strlit("MARTIN_SHOT");
    reveal_strlit("MARTIN_SHOT_AT");
    reveal_strlit("MARTIN_SHOTS");
    reveal_strlit("MARTIN_BENCH");
    reveal_strlit("MARTIN_VALIDATE");
    reveal_strlit("MARTIN_SCORE_STRICT");
    reveal_strlit("MARTIN_SERVE");
    reveal_strlit("MARTIN_SYNTH_WAV");
    reveal_strlit("MARTIN_SCORE_DUMP");
    reveal_strlit("MARTIN_FULLSCREEN");
}

proof fn lemma_none_avoids(a: Seq<EnvPair>, key: Seq<char>)
    requires
        last_value(a, key) is None,
    ensures
        avoids(a, key),
    decreases a.len(),
{
    if a.len() > 0 {
        let d = a.drop_last();
        lemma_none_avoids(d, key);
        assert forall|i: int| 0 <= i < a.len() implies (#[trigger] a[i]).0 != key by {
            if i < d.len() {
                assert(a[i] == d[i]);
            }
        }
    }
}

spec fn env_bench(cli: Cli) -> Seq<EnvPair> {
    match cli.bench {
        Some(n) => seq![("MARTIN_BENCH"@, decimal(n as nat))],
        None => Seq::empty(),
    }
}

spec fn env_serve(cli: Cli) -> Seq<EnvPair> {
    match cli.serve {
        Some(Some(p)) => seq![("MARTIN_SERVE"@, decimal(p as nat))],
        Some(None) => seq![("MARTIN_SERVE"@, "1"@)],
        None => Seq::empty(),
    }
}

spec fn or_else(a: Option<Seq<char>>, b: Option<Seq<char>>) -> Option<Seq<char>> {
    if a is Some {
        a
    } else {
        b
    }
}

/// The last setting of `key` in settings followed by more: the later ones' when they set it.
proof fn lemma_last_value_append(a: Seq<EnvPair>, b: Seq<EnvPair>, key: Seq<char>)
    ensures
        last_value(a + b, key) == or_else(last_value(b, key), last_value(a, key)),
    decreases b.len(),
{
    if b.len() == 0 {
        assert(a + b =~= a);
    } else {
        assert((a + b).drop_last() =~= a + b.drop_last());
        assert((a + b).last() == b.last());
        lemma_last_value_append(a, b.drop_last(), key);
    }
}

proof fn lemma_last_value_short(s: Seq<EnvPair>, key: Seq<char>)
    requires
        s.len() <= 1,
    ensures
        last_value(s, key) == (if s.len() == 1 && s[0].0 == key {
            Some(s[0].1)
        } else {
            None::<Seq<char>>
        }),
{
    if s.len() == 1 {
        assert(s.drop_last() =~= Seq::<EnvPair>::empty());
        assert(last_value(s.drop_last(), key) is None);
        assert(s.last() == s[0]);
    }
}

proof fn lemma_keys_distinct()
    ensures
        "MARTIN_SHOW"@ != "MARTIN_RECORD"@,
        "MARTIN_SHOW"@ != "MARTIN_SHOT"@,
        "MARTIN_SHOW"@ != "MARTIN_SHOT_AT"@,
        "MARTIN_SHOW"@ != "MARTIN_SHOTS"@,
        "MARTIN_SHOW"@ != "MARTIN_BENCH"@,
        "MARTIN_SHOW"@ != "MARTIN_VALIDATE"@,
        "MARTIN_SHOW"@ != "MARTIN_SCORE_STRICT"@,
        "MARTIN_SHOW"@ != "MARTIN_SERVE"@,
        "MARTIN_SHOW"@ != "MARTIN_SYNTH_WAV"@,
        "MARTIN_SHOW"@ != "MARTIN_SCORE_DUMP"@,
        "MARTIN_SHOW"@ != "MARTIN_FULLSCREEN"@,
        "MARTIN_RECORD"@ != "MARTIN_SHOT"@,
        "MARTIN_RECORD"@ != "MARTIN_SHOT_AT"@,
        "MARTIN_RECORD"@ != "MARTIN_SHOTS"@,
        "MARTIN_RECORD"@ != "MARTIN_BENCH"@,
        "MARTIN_RECORD"@ != "MARTIN_VALIDATE"@,
        "MARTIN_RECORD"@ != "MARTIN_SCORE_STRICT"@,
        "MARTIN_RECORD"@ != "MARTIN_SERVE"@,
        "MARTIN_RECORD"@ != "MARTIN_SYNTH_WAV"@,
        "MARTIN_RECORD"@ != "MARTIN_SCORE_DUMP"@,
        "MARTIN_RECORD"@ != "MARTIN_FULLSCREEN"@,
        "MARTIN_SHOT"@ != "MARTIN_SHOT_AT"@,
        "MARTIN_SHOT"@ != "MARTIN_SHOTS"@,
        "MARTIN_SHOT"@ != "MARTIN_BENCH"@,
        "MARTIN_SHOT"@ != "MARTIN_VALIDATE"@,
        "MARTIN_SHOT"@ != "MARTIN_SCORE_STRICT"@,
        "MARTIN_SHOT"@ != "MARTIN_SERVE"@,
        "MARTIN_SHOT"@ != "MARTIN_SYNTH_WAV"@,
        "MARTIN_SHOT"@ != "MARTIN_SCORE_DUMP"@,
        "MARTIN_SHOT"@ != "MARTIN_FULLSCREEN"@,
        "MARTIN_SHOT_AT"@ != "MARTIN_SHOTS"@,
        "MARTIN_SHOT_AT"@ != "MARTIN_BENCH"@,
        "MARTIN_SHOT_AT"@ != "MARTIN_VALIDATE"@,
        "MARTIN_SHOT_AT"@ != "MARTIN_SCORE_STRICT"@,
        "MARTIN_SHOT_AT"@ != "MARTIN_SERVE"@,
        "MARTIN_SHOT_AT"@ != "MARTIN_SYNTH_WAV"@,
        "MARTIN_SHOT_AT"@ != "MARTIN_SCORE_DUMP"@,
        "MARTIN_SHOT_AT"@ != "MARTIN_FULLSCREEN"@,
        "MARTIN_SHOTS"@ != "MARTIN_BENCH"@,
        "MARTIN_SHOTS"@ != "MARTIN_VALIDATE"@,
        "MARTIN_SHOTS"@ != "MARTIN_SCORE_STRICT"@,
        "MARTIN_SHOTS"@ != "MARTIN_SERVE"@,
        "MARTIN_SHOTS"@ != "MARTIN_SYNTH_WAV"@,
        "MARTIN_SHOTS"@ != "MARTIN_SCORE_DUMP"@,
        "MARTIN_SHOTS"@ != "MARTIN_FULLSCREEN"@,
        "MARTIN_BENCH"@ != "MARTIN_VALIDATE"@,
        "MARTIN_BENCH"@ != "MARTIN_SCORE_STRICT"@,
        "MARTIN_BENCH"@ != "MARTIN_SERVE"@,
        "MARTIN_BENCH"@ != "MARTIN_SYNTH_WAV"@,
        "MARTIN_BENCH"@ != "MARTIN_SCORE_DUMP"@,
        "MARTIN_BENCH"@ != "MARTIN_FULLSCREEN"@,
        "MARTIN_VALIDATE"@ != "MARTIN_SCORE_STRICT"@,
        "MARTIN_VALIDATE"@ != "MARTIN_SERVE"@,
        "MARTIN_VALIDATE"@ != "MARTIN_SYNTH_WAV"@,
        "MARTIN_VALIDATE"@ != "MARTIN_SCORE_DUMP"@,
        "MARTIN_VALIDATE"@ != "MARTIN_FULLSCREEN"@,
        "MARTIN_SCORE_STRICT"@ != "MARTIN_SERVE"@,
        "MARTIN_SCORE_STRICT"@ != "MARTIN_SYNTH_WAV"@,
        "MARTIN_SCORE_STRICT"@ != "MARTIN_SCORE_DUMP"@,
        "MARTIN_SCORE_STRICT"@ != "MARTIN_FULLSCREEN"@,
        "MARTIN_SERVE"@ != "MARTIN_SYNTH_WAV"@,
        "MARTIN_SERVE"@ != "MARTIN_SCORE_DUMP"@,
        "MARTIN_SERVE"@ != "MARTIN_FULLSCREEN"@,
        "MARTIN_SYNTH_WAV"@ != "MARTIN_SCORE_DUMP"@,
        "MARTIN_SYNTH_WAV"@ != "MARTIN_FULLSCREEN"@,
        "MARTIN_SCORE_DUMP"@ != "MARTIN_FULLSCREEN"@,
{
    lemma_key_lengths();
    reveal_strlit("MARTIN_SHOW");
    reveal_strlit("MARTIN_RECORD");
    reveal_strlit("MARTIN_SHOT");
    reveal_strlit("MARTIN_SHOT_AT");
    reveal_strlit("MARTIN_SHOTS");
    reveal_strlit("MARTIN_BENCH");
    reveal_strlit("MARTIN_VALIDATE");
    reveal_strlit("MARTIN_SCORE_STRICT");
    reveal_strlit("MARTIN_SERVE");
    reveal_strlit("MARTIN_SYNTH_WAV");
    reveal_strlit("MARTIN_SCORE_DUMP");
    reveal_strlit("MARTIN_FULLSCREEN");
    assert("MARTIN_SHOW"@[10] != "MARTIN_SHOT"@[10]);
    assert("MARTIN_SHOTS"@[7] != "MARTIN_BENCH"@[7]);
    assert("MARTIN_SHOTS"@[8] != "MARTIN_SERVE"@[8]);
    assert("MARTIN_BENCH"@[7] != "MARTIN_SERVE"@[7]);
    assert("MARTIN_SCORE_DUMP"@[7] != "MARTIN_FULLSCREEN"@[7]);
}

/// The last setting of a variable, read group by group from the end of the command line's
/// settings.
#[verifier::spinoff_prover]
proof fn lemma_cli_env_last(cli: Cli, key: Seq<char>)
    ensures
        last_value(cli_env(cli), key) == or_else(
            last_value(env_window(cli), key),
            or_else(
                last_value(set_if("MARTIN_SCORE_DUMP"@, cli.dump_score), key),
                or_else(
                    last_value(set_if("MARTIN_SYNTH_WAV"@, cli.synth_wav), key),
                    or_else(
                        last_value(env_serve(cli), key),
                        or_else(
                            last_value(flag("MARTIN_SCORE_STRICT"@, cli.strict), key),
                            or_else(
                                last_value(flag("MARTIN_VALIDATE"@, cli.validate), key),
                                or_else(
                                    last_value(env_bench(cli), key),
                                    or_else(
                                        last_value(set_if("MARTIN_SHOTS"@, cli.shots), key),
                                        or_else(
                                            last_value(set_if("MARTIN_SHOT_AT"@, cli.shot_at), key),
                                            or_else(
                                                last_value(set_if("MARTIN_SHOT"@, cli.shot), key),
                                                or_else(
                                                    last_value(set_if("MARTIN_RECORD"@, cli.record), key),
                                                    or_else(
                                                        last_value(set_if("MARTIN_SHOW"@, cli.show), key),
                                                        last_value(env_production(cli), key),
                                                    ),
                                                ),
                                            ),
                                        ),
                                    ),
                                ),
                            ),
                        ),
                    ),
                ),
            ),
        ),
{
    let pr = env_production(cli);
    let p0 = set_if("MARTIN_SHOW"@, cli.show);
    let p1 = set_if("MARTIN_RECORD"@, cli.record);
    let p2 = set_if("MARTIN_SHOT"@, cli.shot);
    let p3 = set_if("MARTIN_SHOT_AT"@, cli.shot_at);
    let p4 = set_if("MARTIN_SHOTS"@, cli.shots);
    let be = env_bench(cli);
    let v = flag("MARTIN_VALIDATE"@, cli.validate);
    let st = flag("MARTIN_SCORE_STRICT"@, cli.strict);
    let se = env_serve(cli);
    let sw = set_if("MARTIN_SYNTH_WAV"@, cli.synth_wav);
    let sd = set_if("MARTIN_SCORE_DUMP"@, cli.dump_score);
    let w = env_window(cli);
    let paths = env_paths(cli);
    let checks = env_checks(cli);
    let outs = env_outputs(cli);
    assert(paths == p0 + p1 + p2 + p3 + p4);
    assert(checks == be + v + st);
    assert(outs == se + sw + sd);
    lemma_last_value_append(pr + paths + checks + outs, w, key);
    lemma_last_value_append(pr + paths + checks, outs, key);
    lemma_last_value_append(pr + paths, checks, key);
    lemma_last_value_append(pr, paths, key);
    lemma_last_value_append(p0 + p1 + p2 + p3, p4, key);
    lemma_last_value_append(p0 + p1 + p2, p3, key);
    lemma_last_value_append(p0 + p1, p2, key);
    lemma_last_value_append(p0, p1, key);
    lemma_last_value_append(be + v, st, key);
    lemma_last_value_append(be, v, key);
    lemma_last_value_append(se + sw, sd, key);
    lemma_last_value_append(se, sw, key);
}

#[verifier::spinoff_prover]
proof fn lemma_last_show(cli: Cli)
    ensures
        last_value(cli_env(cli), "MARTIN_SHOW"@) == match cli.show {
            Some(s) => Some(s@),
            None => match cli.production {
                Some(n) => Some("productions/"@ + n@ + "/"@ + n@ + ".show"@),
                None => None,
            },
        },
{
    lemma_keys_distinct();
    let key = "MARTIN_SHOW"@;
    lemma_cli_env_last(cli, key);
    lemma_last_value_short(env_production(cli), key);
    lemma_last_value_short(set_if("MARTIN_SHOW"@, cli.show), key);
    lemma_last_value_short(set_if("MARTIN_RECORD"@, cli.record), key);
    lemma_last_value_short(set_if("MARTIN_SHOT"@, cli.shot), key);
    lemma_last_value_short(set_if("MARTIN_SHOT_AT"@, cli.shot_at), key);
    lemma_last_value_short(set_if("MARTIN_SHOTS"@, cli.shots), key);
    lemma_last_value_short(env_bench(cli), key);
    lemma_last_value_short(flag("MARTIN_VALIDATE"@, cli.validate), key);
    lemma_last_value_short(flag("MARTIN_SCORE_STRICT"@, cli.strict), key);
    lemma_last_value_short(env_serve(cli), key);
    lemma_last_value_short(set_if("MARTIN_SYNTH_WAV"@, cli.synth_wav), key);
    lemma_last_value_short(set_if("MARTIN_SCORE_DUMP"@, cli.dump_score), key);
    lemma_last_value_short(env_window(cli), key);
}

#[verifier::spinoff_prover]
proof fn lemma_last_record(cli: Cli)
    ensures
        last_value(cli_env(cli), "MARTIN_RECORD"@) == match cli.record {
            Some(s) => Some(s@),
            None => None,
        },
{
    lemma_keys_distinct();
    let key = "MARTIN_RECORD"@;
    lemma_cli_env_last(cli, key);
    lemma_last_value_short(env_production(cli), key);
    lemma_last_value_short(set_if("MARTIN_SHOW"@, cli.show), key);
    lemma_last_value_short(set_if("MARTIN_RECORD"@, cli.record), key);
    lemma_last_value_short(set_if("MARTIN_SHOT"@, cli.shot), key);
    lemma_last_value_short(set_if("MARTIN_SHOT_AT"@, cli.shot_at), key);
    lemma_last_value_short(set_if("MARTIN_SHOTS"@, cli.shots), key);
    lemma_last_value_short(env_bench(cli), key);
    lemma_last_value_short(flag("MARTIN_VALIDATE"@, cli.validate), key);
    lemma_last_value_short(flag("MARTIN_SCORE_STRICT"@, cli.strict), key);
    lemma_last_value_short(env_serve(cli), key);
    lemma_last_value_short(set_if("MARTIN_SYNTH_WAV"@, cli.synth_wav), key);
    lemma_last_value_short(set_if("MARTIN_SCORE_DUMP"@, cli.dump_score), key);
    lemma_last_value_short(env_window(cli), key);
}

#[verifier::spinoff_prover]
proof fn lemma_last_shot(cli: Cli)
    ensures
        last_value(cli_env(cli), "MARTIN_SHOT"@) == match cli.shot {
            Some(s) => Some(s@),
            None => None,
        },
{
    lemma_keys_distinct();
    let key = "MARTIN_SHOT"@;
    lemma_cli_env_last(cli, key);
    lemma_last_value_short(env_production(cli), key);
    lemma_last_value_short(set_if("MARTIN_SHOW"@, cli.show), key);
    lemma_last_value_short(set_if("MARTIN_RECORD"@, cli.record), key);
    lemma_last_value_short(set_if("MARTIN_SHOT"@, cli.shot), key);
    lemma_last_value_short(set_if("MARTIN_SHOT_AT"@, cli.shot_at), key);
    lemma_last_value_short(set_if("MARTIN_SHOTS"@, cli.shots), key);
    lemma_last_value_short(env_bench(cli), key);
    lemma_last_value_short(flag("MARTIN_VALIDATE"@, cli.validate), key);
    lemma_last_value_short(flag("MARTIN_SCORE_STRICT"@, cli.strict), key);
    lemma_last_value_short(env_serve(cli), key);
    lemma_last_value_short(set_if("MARTIN_SYNTH_WAV"@, cli.synth_wav), key);
    lemma_last_value_short(set_if("MARTIN_SCORE_DUMP"@, cli.dump_score), key);
    lemma_last_value_short(env_window(cli), key);
}

#[verifier::spinoff_prover]
proof fn lemma_last_shot_at(cli: Cli)
    ensures
        last_value(cli_env(cli), "MARTIN_SHOT_AT"@) == match cli.shot_at {
            Some(s) => Some(s@),
            None => None,
        },
{
    lemma_keys_distinct();
    let key = "MARTIN_SHOT_AT"@;
    lemma_cli_env_last(cli, key);
    lemma_last_value_short(env_production(cli), key);
    lemma_last_value_short(set_if("MARTIN_SHOW"@, cli.show), key);
    lemma_last_value_short(set_if("MARTIN_RECORD"@, cli.record), key);
    lemma_last_value_short(set_if("MARTIN_SHOT"@, cli.shot), key);
    lemma_last_value_short(set_if("MARTIN_SHOT_AT"@, cli.shot_at), key);
    lemma_last_value_short(set_if("MARTIN_SHOTS"@, cli.shots), key);
    lemma_last_value_short(env_bench(cli), key);
    lemma_last_value_short(flag("MARTIN_VALIDATE"@, cli.validate), key);
    lemma_last_value_short(flag("MARTIN_SCORE_STRICT"@, cli.strict), key);
    lemma_last_value_short(env_serve(cli), key);
    lemma_last_value_short(set_if("MARTIN_SYNTH_WAV"@, cli.synth_wav), key);
    lemma_last_value_short(set_if("MARTIN_SCORE_DUMP"@, cli.dump_score), key);
    lemma_last_value_short(env_window(cli), key);
}

#[verifier::spinoff_prover]
proof fn lemma_last_shots(cli: Cli)
    ensures
        last_value(cli_env(cli), "MARTIN_SHOTS"@) == match cli.shots {
            Some(s) => Some(s@),
            None => None,
        },
{
    lemma_keys_distinct();
    let key = "MARTIN_SHOTS"@;
    lemma_cli_env_last(cli, key);
    lemma_last_value_short(env_production(cli), key);
    lemma_last_value_short(set_if("MARTIN_SHOW"@, cli.show), key);
    lemma_last_value_short(set_if("MARTIN_RECORD"@, cli.record), key);
    lemma_last_value_short(set_if("MARTIN_SHOT"@, cli.shot), key);
    lemma_last_value_short(set_if("MARTIN_SHOT_AT"@, cli.shot_at), key);
    lemma_last_value_short(set_if("MARTIN_SHOTS"@, cli.shots), key);
    lemma_last_value_short(env_bench(cli), key);
    lemma_last_value_short(flag("MARTIN_VALIDATE"@, cli.validate), key);
    lemma_last_value_short(flag("MARTIN_SCORE_STRICT"@, cli.strict), key);
    lemma_last_value_short(env_serve(cli), key);
    lemma_last_value_short(set_if("MARTIN_SYNTH_WAV"@, cli.synth_wav), key);
    lemma_last_value_short(set_if("MARTIN_SCORE_DUMP"@, cli.dump_score), key);
    lemma_last_value_short(env_window(cli), key);
}

#[verifier::spinoff_prover]
proof fn lemma_last_bench(cli: Cli)
    ensures
        last_value(cli_env(cli), "MARTIN_BENCH"@) == match cli.bench {
            Some(n) => Some(decimal(n as nat)),
            None => None,
        },
{
    lemma_keys_distinct();
    let key = "MARTIN_BENCH"@;
    lemma_cli_env_last(cli, key);
    lemma_last_value_short(env_production(cli), key);
    lemma_last_value_short(set_if("MARTIN_SHOW"@, cli.show), key);
    lemma_last_value_short(set_if("MARTIN_RECORD"@, cli.record), key);
    lemma_last_value_short(set_if("MARTIN_SHOT"@, cli.shot), key);
    lemma_last_value_short(set_if("MARTIN_SHOT_AT"@, cli.shot_at), key);
    lemma_last_value_short(set_if("MARTIN_SHOTS"@, cli.shots), key);
    lemma_last_value_short(env_bench(cli), key);
    lemma_last_value_short(flag("MARTIN_VALIDATE"@, cli.validate), key);
    lemma_last_value_short(flag("MARTIN_SCORE_STRICT"@, cli.strict), key);
    lemma_last_value_short(env_serve(cli), key);
    lemma_last_value_short(set_if("MARTIN_SYNTH_WAV"@, cli.synth_wav), key);
    lemma_last_value_short(set_if("MARTIN_SCORE_DUMP"@, cli.dump_score), key);
    lemma_last_value_short(env_window(cli), key);
}

#[verifier::spinoff_prover]
proof fn lemma_last_serve(cli: Cli)
    ensures
        last_value(cli_env(cli), "MARTIN_SERVE"@) == match cli.serve {
            Some(Some(p)) => Some(decimal(p as nat)),
            Some(None) => Some("1"@),
            None => None,
        },
{
    lemma_keys_distinct();
    let key = "MARTIN_SERVE"@;
    lemma_cli_env_last(cli, key);
    lemma_last_value_short(env_production(cli), key);
    lemma_last_value_short(set_if("MARTIN_SHOW"@, cli.show), key);
    lemma_last_value_short(set_if("MARTIN_RECORD"@, cli.record), key);
    lemma_last_value_short(set_if("MARTIN_SHOT"@, cli.shot), key);
    lemma_last_value_short(set_if("MARTIN_SHOT_AT"@, cli.shot_at), key);
    lemma_last_value_short(set_if("MARTIN_SHOTS"@, cli.shots), key);
    lemma_last_value_short(env_bench(cli), key);
    lemma_last_value_short(flag("MARTIN_VALIDATE"@, cli.validate), key);
    lemma_last_value_short(flag("MARTIN_SCORE_STRICT"@, cli.strict), key);
    lemma_last_value_short(env_serve(cli), key);
    lemma_last_value_short(set_if("MARTIN_SYNTH_WAV"@, cli.synth_wav), key);
    lemma_last_value_short(set_if("MARTIN_SCORE_DUMP"@, cli.dump_score), key);
    lemma_last_value_short(env_window(cli), key);
}

#[verifier::spinoff_prover]
proof fn lemma_last_synth_wav(cli: Cli)
    ensures
        last_value(cli_env(cli), "MARTIN_SYNTH_WAV"@) == match cli.synth_wav {
            Some(s) => Some(s@),
            None => None,
        },
{
    lemma_keys_distinct();
    let key = "MARTIN_SYNTH_WAV"@;
    lemma_cli_env_last(cli, key);
    lemma_last_value_short(env_production(cli), key);
    lemma_last_value_short(set_if("MARTIN_SHOW"@, cli.show), key);
    lemma_last_value_short(set_if("MARTIN_RECORD"@, cli.record), key);
    lemma_last_value_short(set_if("MARTIN_SHOT"@, cli.shot), key);
    lemma_last_value_short(set_if("MARTIN_SHOT_AT"@, cli.shot_at), key);
    lemma_last_value_short(set_if("MARTIN_SHOTS"@, cli.shots), key);
    lemma_last_value_short(env_bench(cli), key);
    lemma_last_value_short(flag("MARTIN_VALIDATE"@, cli.validate), key);
    lemma_last_value_short(flag("MARTIN_SCORE_STRICT"@, cli.strict), key);
    lemma_last_value_short(env_serve(cli), key);
    lemma_last_value_short(set_if("MARTIN_SYNTH_WAV"@, cli.synth_wav), key);
    lemma_last_value_short(set_if("MARTIN_SCORE_DUMP"@, cli.dump_score), key);
    lemma_last_value_short(env_window(cli), key);
}

#[verifier::spinoff_prover]
proof fn lemma_last_score_dump(cli: Cli)
    ensures
        last_value(cli_env(cli), "MARTIN_SCORE_DUMP"@) == match cli.dump_score {
            Some(s) => Some(s@),
            None => None,
        },
{
    lemma_keys_distinct();
    let key = "MARTIN_SCORE_DUMP"@;
    lemma_cli_env_last(cli, key);
    lemma_last_value_short(env_production(cli), key);
    lemma_last_value_short(set_if("MARTIN_SHOW"@, cli.show), key);
    lemma_last_value_short(set_if("MARTIN_RECORD"@, cli.record), key);
    lemma_last_value_short(set_if("MARTIN_SHOT"@, cli.shot), key);
    lemma_last_value_short(set_if("MARTIN_SHOT_AT"@, cli.shot_at), key);
    lemma_last_value_short(set_if("MARTIN_SHOTS"@, cli.shots), key);
    lemma_last_value_short(env_bench(cli), key);
    lemma_last_value_short(flag("MARTIN_VALIDATE"@, cli.validate), key);
    lemma_last_value_short(flag("MARTIN_SCORE_STRICT"@, cli.strict), key);
    lemma_last_value_short(env_serve(cli), key);
    lemma_last_value_short(set_if("MARTIN_SYNTH_WAV"@, cli.synth_wav), key);
    lemma_last_value_short(set_if("MARTIN_SCORE_DUMP"@, cli.dump_score), key);
    lemma_last_value_short(env_window(cli), key);
}

#[verifier::spinoff_prover]
proof fn lemma_last_fullscreen(cli: Cli)
    ensures
        last_value(cli_env(cli), "MARTIN_FULLSCREEN"@) == (if cli.fullscreen {
            Some("1"@)
        } else if cli.windowed {
            Some("0"@)
        } else {
            None::<Seq<char>>
        }),
{
    lemma_keys_distinct();
    let key = "MARTIN_FULLSCREEN"@;
    lemma_cli_env_last(cli, key);
    lemma_last_value_short(env_production(cli), key);
    lemma_last_value_short(set_if("MARTIN_SHOW"@, cli.show), key);
    lemma_last_value_short(set_if("MARTIN_RECORD"@, cli.record), key);
    lemma_last_value_short(set_if("MARTIN_SHOT"@, cli.shot), key);
    lemma_last_value_short(set_if("MARTIN_SHOT_AT"@, cli.shot_at), key);
    lemma_last_value_short(set_if("MARTIN_SHOTS"@, cli.shots), key);
    lemma_last_value_short(env_bench(cli), key);
    lemma_last_value_short(flag("MARTIN_VALIDATE"@, cli.validate), key);
    lemma_last_value_short(flag("MARTIN_SCORE_STRICT"@, cli.strict), key);
    lemma_last_value_short(env_serve(cli), key);
    lemma_last_value_short(set_if("MARTIN_SYNTH_WAV"@, cli.synth_wav), key);
    lemma_last_value_short(set_if("MARTIN_SCORE_DUMP"@, cli.dump_score), key);
    lemma_last_value_short(env_window(cli), key);
}

#[verifier::spinoff_prover]
proof fn lemma_last_validate(cli: Cli)
    ensures
        last_value(cli_env(cli), "MARTIN_VALIDATE"@) == (if cli.validate {
            Some("1"@)
        } else {
            None::<Seq<char>>
        }),
{
    lemma_keys_distinct();
    let key = "MARTIN_VALIDATE"@;
    lemma_cli_env_last(cli, key);
    lemma_last_value_short(env_production(cli), key);
    lemma_last_value_short(set_if("MARTIN_SHOW"@, cli.show), key);
    lemma_last_value_short(set_if("MARTIN_RECORD"@, cli.record), key);
    lemma_last_value_short(set_if("MARTIN_SHOT"@, cli.shot), key);
    lemma_last_value_short(set_if("MARTIN_SHOT_AT"@, cli.shot_at), key);
    lemma_last_value_short(set_if("MARTIN_SHOTS"@, cli.shots), key);
    lemma_last_value_short(env_bench(cli), key);
    let v = flag("MARTIN_VALIDATE"@, cli.validate);
    lemma_last_value_short(v, key);
    lemma_last_value_short(flag("MARTIN_SCORE_STRICT"@, cli.strict), key);
    lemma_last_value_short(env_serve(cli), key);
    lemma_last_value_short(set_if("MARTIN_SYNTH_WAV"@, cli.synth_wav), key);
    lemma_last_value_short(set_if("MARTIN_SCORE_DUMP"@, cli.dump_score), key);
    lemma_last_value_short(env_window(cli), key);
}

#[verifier::spinoff_prover]
proof fn lemma_last_score_strict(cli: Cli)
    ensures
        last_value(cli_env(cli), "MARTIN_SCORE_STRICT"@) == (if cli.strict {
            Some("1"@)
        } else {
            None::<Seq<char>>
        }),
{
    lemma_keys_distinct();
    let key = "MARTIN_SCORE_STRICT"@;
    lemma_cli_env_last(cli, key);
    lemma_last_value_short(env_production(cli), key);
    lemma_last_value_short(set_if("MARTIN_SHOW"@, cli.show), key);
    lemma_last_value_short(set_if("MARTIN_RECORD"@, cli.record), key);
    lemma_last_value_short(set_if("MARTIN_SHOT"@, cli.shot), key);
    lemma_last_value_short(set_if("MARTIN_SHOT_AT"@, cli.shot_at), key);
    lemma_last_value_short(set_if("MARTIN_SHOTS"@, cli.shots), key);
    lemma_last_value_short(env_bench(cli), key);
    lemma_last_value_short(flag("MARTIN_VALIDATE"@, cli.validate), key);
    lemma_last_value_short(flag("MARTIN_SCORE_STRICT"@, cli.strict), key);
    lemma_last_value_short(env_serve(cli), key);
    lemma_last_value_short(set_if("MARTIN_SYNTH_WAV"@, cli.synth_wav), key);
    lemma_last_value_short(set_if("MARTIN_SCORE_DUMP"@, cli.dump_score), key);
    lemma_last_value_short(env_window(cli), key);
}

proof fn lemma_some_names(a: Seq<EnvPair>, key: Seq<char>)
    requires
        last_value(a, key) is Some,
    ensures
        exists|i: int| 0 <= i < a.len() && (#[trigger] a[i]).0 == key,
    decreases a.len(),
{
    if a.last().0 == key {
        assert(a[a.len() - 1].0 == key);
    } else {
        let d = a.drop_last();
        lemma_some_names(d, key);
        let i = choose|i: int| 0 <= i < d.len() && (#[trigger] d[i]).0 == key;
        assert(a[i] == d[i]);
    }
}

/// `--validate` and `--strict` each set their own variable and nothing else does: the
/// command line sets `MARTIN_VALIDATE` exactly when `--validate` is given, to `1`, whatever
/// `--strict` says, and `MARTIN_SCORE_STRICT` exactly when `--strict` is given, to `1`, whatever
/// `--validate` says.
#[verifier::spinoff_prover]
pub proof fn lemma_check_flags(cli: Cli)
    ensures
        last_value(cli_env(cli), "MARTIN_VALIDATE"@) == (if cli.validate {
            Some("1"@)
        } else {
            None::<Seq<char>>
        }),
        cli.validate <==> exists|i: int|
            0 <= i < cli_env(cli).len() && (#[trigger] cli_env(cli)[i]).0 == "MARTIN_VALIDATE"@,
        last_value(cli_env(cli), "MARTIN_SCORE_STRICT"@) == (if cli.strict {
            Some("1"@)
        } else {
            None::<Seq<char>>
        }),
        cli.strict <==> exists|i: int|
            0 <= i < cli_env(cli).len() && (#[trigger] cli_env(cli)[i]).0 == "MARTIN_SCORE_STRICT"@,
{
    lemma_last_validate(cli);
    lemma_last_score_strict(cli);
    let e = cli_env(cli);
    if cli.validate {
        lemma_some_names(e, "MARTIN_VALIDATE"@);
    } else {
        lemma_none_avoids(e, "MARTIN_VALIDATE"@);
    }
    if cli.strict {
        lemma_some_names(e, "MARTIN_SCORE_STRICT"@);
    } else {
        lemma_none_avoids(e, "MARTIN_SCORE_STRICT"@);
    }
}

/// What the command line leaves in each `MARTIN_*` variable once its settings are applied in
/// order: the positional show, else the production's `productions/<NAME>/<NAME>.show`, in
/// `MARTIN_SHOW`; each path option in its own variable; the bench frame count and the serve port
/// in decimal (`1` for `--serve` without a port); `1` for `--validate` and for `--strict`, each
/// independent of the other; `1` for `--fullscreen`, else `0` for `--windowed`. A variable whose
/// option is absent is left unset.
pub proof fn lemma_cli_settings(cli: Cli)
    ensures
        last_value(cli_env(cli), "MARTIN_SHOW"@) == match cli.show {
            Some(s) => Some(s@),
            None => match cli.production {
                Some(n) => Some("productions/"@ + n@ + "/"@ + n@ + ".show"@),
                None => None,
            },
        },
        last_value(cli_env(cli), "MARTIN_RECORD"@) == match cli.record {
            Some(s) => Some(s@),
            None => None,
        },
        last_value(cli_env(cli), "MARTIN_SHOT"@) == match cli.shot {
            Some(s) => Some(s@),
            None => None,
        },
        last_value(cli_env(cli), "MARTIN_SHOT_AT"@) == match cli.shot_at {
            Some(s) => Some(s@),
            None => None,
        },
        last_value(cli_env(cli), "MARTIN_SHOTS"@) == match cli.shots {
            Some(s) => Some(s@),
            None => None,
        },
        last_value(cli_env(cli), "MARTIN_BENCH"@) == match cli.bench {
            Some(n) => Some(decimal(n as nat)),
            None => None,
        },
        last_value(cli_env(cli), "MARTIN_VALIDATE"@) == (if cli.validate {
            Some("1"@)
        } else {
            None::<Seq<char>>
        }),
        last_value(cli_env(cli), "MARTIN_SCORE_STRICT"@) == (if cli.strict {
            Some("1"@)
        } else {
            None::<Seq<char>>
        }),
        last_value(cli_env(cli), "MARTIN_SERVE"@) == match cli.serve {
            Some(Some(p)) => Some(decimal(p as nat)),
            Some(None) => Some("1"@),
            None => None,
        },
        last_value(cli_env(cli), "MARTIN_SYNTH_WAV"@) == match cli.synth_wav {
            Some(s) => Some(s@),
            None => None,
        },
        last_value(cli_env(cli), "MARTIN_SCORE_DUMP"@) == match cli.dump_score {
            Some(s) => Some(s@),
            None => None,
        },
        last_value(cli_env(cli), "MARTIN_FULLSCREEN"@) == (if cli.fullscreen {
            Some("1"@)
        } else if cli.windowed {
            Some("0"@)
        } else {
            None::<Seq<char>>
        }),
{
    lemma_last_show(cli);
    lemma_last_record(cli);
    lemma_last_shot(cli);
    lemma_last_shot_at(cli);
    lemma_last_shots(cli);
    lemma_last_bench(cli);
    lemma_check_flags(cli);
    lemma_last_serve(cli);
    lemma_last_synth_wav(cli);
    lemma_last_score_dump(cli);
    lemma_last_fullscreen(cli);
}

/// Given both a production and a positional show, the positional show is the one that sticks:
/// the last `MARTIN_SHOW` setting is the positional show whenever one is given.
#[verifier::spinoff_prover]
pub proof fn lemma_positional_show_wins(cli: Cli)
    requires
        cli.show is Some,
    ensures
        last_value(cli_env(cli), "MARTIN_SHOW"@) == Some(cli.show->0@),
{
    lemma_last_show(cli);
}

} // verus!
