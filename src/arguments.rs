//! Resolving flag tokens into a configuration and a list of sources.
use vstd::prelude::*;
use crate::config::ResolvedConfig;

verus! {

/// The recognized flag tokens, in the order `available_options` lists them.
pub open spec fn flag_table() -> Seq<Seq<char>> {
    seq![
        "-b"@, "--number-nonblank"@,
        "-e"@,
        "-n"@, "--number"@,
        "-s"@, "--squeeze-blank"@,
        "-t"@,
        "-T"@, "--show-tabs"@,
        "-E"@, "--show-ends"@,
        "-A"@, "--show-all"@,
        "-v"@, "--show-nonprinting"@,
        "-u"@,
        "-h"@, "--help"@,
    ]
}

/// A token that asks for an option: it starts with `-` and is not `-` alone,
/// which names standard input.
pub open spec fn is_flag_token(tok: Seq<char>) -> bool {
    tok.len() > 1 && tok[0] == '-'
}

/// A flag token that is not recognized.
pub open spec fn is_unknown_flag(tok: Seq<char>) -> bool {
    is_flag_token(tok) && !flag_table().contains(tok)
}

/// What a recognized flag adds to `cfg`; flags only ever switch options on.
pub open spec fn flag_effect(cfg: ResolvedConfig, tok: Seq<char>) -> ResolvedConfig {
    if tok == "-b"@ || tok == "--number-nonblank"@ {
        ResolvedConfig { number: true, number_nonblank: true, ..cfg }
    } else if tok == "-e"@ {
        ResolvedConfig { show_ends: true, show_nonprinting: true, ..cfg }
    } else if tok == "-n"@ || tok == "--number"@ {
        ResolvedConfig { number: true, ..cfg }
    } else if tok == "-s"@ || tok == "--squeeze-blank"@ {
        ResolvedConfig { squeeze_blank: true, ..cfg }
    } else if tok == "-t"@ {
        ResolvedConfig { show_tabs: true, show_nonprinting: true, ..cfg }
    } else if tok == "-T"@ || tok == "--show-tabs"@ {
        ResolvedConfig { show_tabs: true, ..cfg }
    } else if tok == "-E"@ || tok == "--show-ends"@ {
        ResolvedConfig { show_ends: true, ..cfg }
    } else if tok == "-A"@ || tok == "--show-all"@ {
        ResolvedConfig { show_nonprinting: true, show_ends: true, show_tabs: true, ..cfg }
    } else if tok == "-v"@ || tok == "--show-nonprinting"@ {
        ResolvedConfig { show_nonprinting: true, ..cfg }
    } else {
        cfg
    }
}

/// The configuration that the flag tokens among `toks` build, from all options off.
pub open spec fn config_of(toks: Seq<Seq<char>>) -> ResolvedConfig
    decreases toks.len(),
{
    if toks.len() == 0 {
        ResolvedConfig::plain()
    } else if is_flag_token(toks.last()) {
        flag_effect(config_of(toks.drop_last()), toks.last())
    } else {
        config_of(toks.drop_last())
    }
}

/// The flag tokens among `toks`, in order.
pub open spec fn option_tokens(toks: Seq<Seq<char>>) -> Seq<Seq<char>>
    decreases toks.len(),
{
    if toks.len() == 0 {
        seq![]
    } else if is_flag_token(toks.last()) {
        option_tokens(toks.drop_last()).push(toks.last())
    } else {
        option_tokens(toks.drop_last())
    }
}

/// The positional tokens among `toks`, in order.
pub open spec fn positional_tokens(toks: Seq<Seq<char>>) -> Seq<Seq<char>>
    decreases toks.len(),
{
    if toks.len() == 0 {
        seq![]
    } else if is_flag_token(toks.last()) {
        positional_tokens(toks.drop_last())
    } else {
        positional_tokens(toks.drop_last()).push(toks.last())
    }
}

/// The sources to read: the positional tokens, or standard input alone when
/// there are none.
pub open spec fn source_list(toks: Seq<Seq<char>>) -> Seq<Seq<char>> {
    if positional_tokens(toks).len() == 0 {
        seq!["-"@]
    } else {
        positional_tokens(toks)
    }
}

/// The message for an unrecognized flag.
pub open spec fn invalid_option_message(tok: Seq<char>) -> Seq<char> {
    "Invalid option: "@ + tok
}

/// The character views of a sequence of strings.
pub open spec fn strings_of(v: Seq<String>) -> Seq<Seq<char>> {
    v.map_values(|s: String| s@)
}

/// What a resolved set of arguments holds.
pub struct ArgumentsView {
    pub options: Seq<Seq<char>>,
    pub files: Seq<Seq<char>>,
    pub config: ResolvedConfig,
}

/// Flag tokens and source identifiers, resolved from a command line.
pub struct Arguments {
    options: Vec<String>,
    files: Vec<String>,
    config: ResolvedConfig,
}

impl View for Arguments {
    type V = ArgumentsView;

    closed spec fn view(&self) -> ArgumentsView {
        ArgumentsView {
            options: strings_of(self.options@),
            files: strings_of(self.files@),
            config: self.config,
        }
    }
}

/// Whether `s` holds exactly the characters of `lit`.
fn same_text(s: &String, lit: &str) -> (r: bool)
    ensures
        r == (s@ == lit@),
{
    *s == lit.to_owned()
}

/// Adds what the flag `tok` sets to `cfg`.
fn apply_flag(cfg: ResolvedConfig, tok: &String) -> (r: ResolvedConfig)
    ensures
        r == flag_effect(cfg, tok@),
{
    if same_text(tok, "-b") || same_text(tok, "--number-nonblank") {
        ResolvedConfig { number: true, number_nonblank: true, ..cfg }
    } else if same_text(tok, "-e") {
        ResolvedConfig { show_ends: true, show_nonprinting: true, ..cfg }
    } else if same_text(tok, "-n") || same_text(tok, "--number") {
        ResolvedConfig { number: true, ..cfg }
    } else if same_text(tok, "-s") || same_text(tok, "--squeeze-blank") {
        ResolvedConfig { squeeze_blank: true, ..cfg }
    } else if same_text(tok, "-t") {
        ResolvedConfig { show_tabs: true, show_nonprinting: true, ..cfg }
    } else if same_text(tok, "-T") || same_text(tok, "--show-tabs") {
        ResolvedConfig { show_tabs: true, ..cfg }
    } else if same_text(tok, "-E") || same_text(tok, "--show-ends") {
        ResolvedConfig { show_ends: true, ..cfg }
    } else if same_text(tok, "-A") || same_text(tok, "--show-all") {
        ResolvedConfig { show_nonprinting: true, show_ends: true, show_tabs: true, ..cfg }
    } else if same_text(tok, "-v") || same_text(tok, "--show-nonprinting") {
        ResolvedConfig { show_nonprinting: true, ..cfg }
    } else {
        cfg
    }
}

/// Whether `tok` asks for an option.
fn flag_token(tok: &String) -> (r: bool)
    ensures
        r == is_flag_token(tok@),
{
    let s = tok.as_str();
    s.unicode_len() > 1 && s.get_char(0) == '-'
}

/// Whether `tok` is among the flags that `table` lists.
fn listed(table: &Vec<(&'static str, &'static str)>, tok: &String) -> (r: bool)
    ensures
        r == exists|k: int| 0 <= k < table@.len() && #[trigger] table@[k].0@ == tok@,
{
    let mut k: usize = 0;
    while k < table.len()
        invariant
            k <= table.len(),
            forall|j: int| 0 <= j < k ==> #[trigger] table@[j].0@ != tok@,
        decreases table.len() - k,
    {
        if same_text(tok, table[k].0) {
            return true;
        }
        k += 1;
    }
    false
}

impl Arguments {
    /// Resolves `args`: flag tokens switch options on, other tokens name
    /// sources. The first unrecognized flag token is an error.
    pub fn new(args: &[String]) -> (r: Result<Arguments, String>)
        ensures
            r is Err <==> exists|i: int| 0 <= i < args@.len() && is_unknown_flag(#[trigger] args@[i]@),
            r matches Err(m) ==> exists|i: int|
                0 <= i < args@.len() && is_unknown_flag(#[trigger] args@[i]@) && (forall|j: int|
                    0 <= j < i ==> !is_unknown_flag(#[trigger] args@[j]@)) && m@
                    == invalid_option_message(args@[i]@),
            r matches Ok(a) ==> a@.options == option_tokens(strings_of(args@)) && a@.files
                == source_list(strings_of(args@)) && a@.config == config_of(strings_of(args@)),
    {
        let ghost toks = strings_of(args@);
        let table = Arguments::available_options();
        let mut options: Vec<String> = Vec::new();
        let mut files: Vec<String> = Vec::new();
        let mut config = ResolvedConfig::new();
        let mut i: usize = 0;
        while i < args.len()
            invariant
                i <= args.len(),
                toks == strings_of(args@),
                table@.len() == flag_table().len(),
                forall|k: int| 0 <= k < table@.len() ==> #[trigger] table@[k].0@ == flag_table()[k],
                forall|j: int| 0 <= j < i ==> !is_unknown_flag(#[trigger] args@[j]@),
                strings_of(options@) == option_tokens(toks.take(i as int)),
                strings_of(files@) == positional_tokens(toks.take(i as int)),
                config == config_of(toks.take(i as int)),
            decreases args.len() - i,
        {
            proof {
                assert(toks.take(i + 1).drop_last() =~= toks.take(i as int));
                assert(toks.take(i + 1).last() == args@[i as int]@);
            }
            let arg = &args[i];
            if flag_token(arg) {
                if !listed(&table, arg) {
                    proof {
                        assert forall|k: int| 0 <= k < flag_table().len() implies flag_table()[k]
                            != arg@ by {
                            assert(table@[k].0@ == flag_table()[k]);
                        }
                    }
                    let mut m = "Invalid option: ".to_owned();
                    m.append(arg.as_str());
                    return Err(m);
                }
                proof {
                    let k = choose|k: int| 0 <= k < table@.len() && #[trigger] table@[k].0@ == arg@;
                    assert(flag_table()[k] == arg@);
                }
                options.push(arg.clone());
                config = apply_flag(config, arg);
                assert(strings_of(options@) =~= option_tokens(toks.take(i + 1)));
            } else {
                files.push(arg.clone());
                assert(strings_of(files@) =~= positional_tokens(toks.take(i + 1)));
            }
            i += 1;
        }
        assert(toks.take(args.len() as int) =~= toks);
        if files.len() == 0 {
            files.push("-".to_owned());
            assert(strings_of(files@) =~= source_list(toks));
        }
        Ok(Arguments { options, files, config })
    }

    /// Whether the flag `option` was given.
    pub fn has_option(&self, option: &str) -> (r: bool)
        ensures
            r == self@.options.contains(option@),
    {
        let mut k: usize = 0;
        while k < self.options.len()
            invariant
                k <= self.options.len(),
                forall|j: int| 0 <= j < k ==> #[trigger] self.options@[j]@ != option@,
            decreases self.options.len() - k,
        {
            if same_text(&self.options[k], option) {
                assert(self@.options[k as int] == option@);
                return true;
            }
            k += 1;
        }
        proof {
            assert forall|j: int| 0 <= j < self@.options.len() implies self@.options[j] != option@ by {
                assert(self@.options[j] == self.options@[j]@);
            }
        }
        false
    }

    /// The sources to read, in order; `-` stands for standard input.
    pub fn files(&self) -> (r: &Vec<String>)
        ensures
            strings_of(r@) == self@.files,
    {
        &self.files
    }

    /// The configuration that the flags build.
    pub fn config(&self) -> (r: ResolvedConfig)
        ensures
            r == self@.config,
    {
        self.config
    }

    /// The recognized flags, each with a line that describes it.
    pub fn available_options() -> (r: Vec<(&'static str, &'static str)>)
        ensures
            r@.len() == flag_table().len(),
            forall|k: int| 0 <= k < r@.len() ==> #[trigger] r@[k].0@ == flag_table()[k],
    {
        let r = vec![
            ("-b", "Number nonempty output lines"),
            ("--number-nonblank", "Number nonempty output lines"),
            ("-e", "Same as -E, and record -v"),
            ("-n", "Number all output lines"),
            ("--number", "Number all output lines"),
            ("-s", "Suppress repeated empty output lines"),
            ("--squeeze-blank", "Suppress repeated empty output lines"),
            ("-t", "Same as -T, and record -v"),
            ("-T", "Display tab characters as `^I`"),
            ("--show-tabs", "Display tab characters as `^I`"),
            ("-E", "Display a `$` at the end of each line"),
            ("--show-ends", "Display a `$` at the end of each line"),
            ("-A", "Same as -vET"),
            ("--show-all", "Same as -vET"),
            ("-v", "Accepted; changes no output"),
            ("--show-nonprinting", "Accepted; changes no output"),
            ("-u", "Ignored"),
            ("-h", "Show this help"),
            ("--help", "Show this help"),
        ];
        r
    }
}

} // verus!
