//! Command-line rules: the messages for misuse of flags, feature groups
//! given on the command line, and `-Z` flags passed through to cargo.

use vstd::prelude::*;

use crate::error::Error;
use crate::features::{join_commas, Feature};
use crate::text::{has_char, has_prefix, split_chars, split_on, str_eq, str_views, string_from_chars, views};

verus! {

broadcast use crate::text::lemma_contains_push;

/// A flag of the command line, without its value.
pub enum OwnedFlag {
    /// `--name`
    Long(String),
    /// `-c`
    Short(char),
}

/// How a flag is written on the command line.
pub open spec fn flag_text(f: OwnedFlag) -> Seq<char> {
    match f {
        OwnedFlag::Long(n) => "--"@ + n@,
        OwnedFlag::Short(c) => "-"@ + seq![c],
    }
}

/// Writes a flag as it is given on the command line.
pub fn format_flag(flag: &OwnedFlag) -> (res: String)
    ensures
        res@ == flag_text(*flag),
{
    match flag {
        OwnedFlag::Long(n) => {
            let mut s = String::from_str("--");
            s.append(n.as_str());
            s
        },
        OwnedFlag::Short(c) => {
            let mut s = String::from_str("-");
            let one = [*c];
            let t = string_from_chars(one.as_slice());
            s.append(t.as_str());
            proof {
                assert(one@ =~= seq![*c]);
            }
            s
        },
    }
}

/// Each of `list` followed by `, `.
pub open spec fn each_with_comma(list: Seq<Seq<char>>) -> Seq<char>
    decreases list.len(),
{
    if list.len() == 0 {
        Seq::empty()
    } else {
        each_with_comma(list.drop_last()) + list.last() + ", "@
    }
}

/// The flags of which one is required, as the message words them.
pub open spec fn requires_with(list: Seq<Seq<char>>) -> Seq<char> {
    if list.len() == 1 {
        list[0]
    } else if list.len() == 2 {
        "either "@ + list[0] + " or "@ + list[1]
    } else {
        each_with_comma(list.drop_last()) + "or "@ + list.last()
    }
}

/// The message of [`requires_flag`].
pub open spec fn requires_message(flag: Seq<char>, list: Seq<Seq<char>>) -> Seq<char> {
    flag + " can only be used together with "@ + requires_with(list)
}

/// `flag` requires one of `needed`: always the error saying so.
pub fn requires_flag(flag: &str, needed: &[&str]) -> (res: Result<(), Error>)
    requires
        needed@.len() > 0,
    ensures
        match res {
            Ok(_) => false,
            Err(e) => e@ == requires_message(flag@, str_views(needed@)),
        },
{
    let ghost list = str_views(needed@);
    let mut with = String::new();
    if needed.len() == 1 {
        with.append(needed[0]);
    } else if needed.len() == 2 {
        with.append("either ");
        with.append(needed[0]);
        with.append(" or ");
        with.append(needed[1]);
    } else {
        let mut i: usize = 0;
        proof {
            assert(list.take(0) =~= Seq::<Seq<char>>::empty());
        }
        while i < needed.len() - 1
            invariant
                list == str_views(needed@),
                needed@.len() > 2,
                i <= needed@.len() - 1,
                with@ == each_with_comma(list.take(i as int)),
            decreases needed.len() - 1 - i,
        {
            with.append(needed[i]);
            with.append(", ");
            proof {
                assert(list.take(i as int + 1).drop_last() =~= list.take(i as int));
            }
            i = i + 1;
        }
        proof {
            assert(list.take(needed@.len() - 1) =~= list.drop_last());
        }
        with.append("or ");
        with.append(needed[needed.len() - 1]);
    }
    let mut message = String::from_str(flag);
    message.append(" can only be used together with ");
    message.append(with.as_str());
    Err(Error::msg(message))
}

/// `a` conflicts with `b`: always the error saying so.
pub fn conflicts(a: &str, b: &str) -> (res: Result<(), Error>)
    ensures
        match res {
            Ok(_) => false,
            Err(e) => e@ == a@ + " may not be used together with "@ + b@,
        },
{
    let mut message = String::from_str(a);
    message.append(" may not be used together with ");
    message.append(b);
    Err(Error::msg(message))
}

/// The flag that replaced a removed flag.
pub open spec fn replacement_of(flag: Seq<char>) -> Option<Seq<char>> {
    if flag == "ignore-non-exist-features"@ {
        Some("--ignore-unknown-features"@)
    } else if flag == "skip-no-default-features"@ {
        Some("--exclude-no-default-features"@)
    } else {
        None
    }
}

/// An error for a flag that was removed, naming its replacement.
pub fn removed_flags(flag: &str) -> (res: Result<(), Error>)
    ensures
        match replacement_of(flag@) {
            None => res is Ok,
            Some(alt) => res matches Err(e) && e@ == "--"@ + flag@ + " was removed, use "@ + alt + " instead"@,
        },
{
    let alt = if str_eq(flag, "ignore-non-exist-features") {
        "--ignore-unknown-features"
    } else if str_eq(flag, "skip-no-default-features") {
        "--exclude-no-default-features"
    } else {
        return Ok(());
    };
    let mut message = String::from_str("--");
    message.append(flag);
    message.append(" was removed, use ");
    message.append(alt);
    message.append(" instead");
    Err(Error::msg(message))
}

/// The text of an optional subcommand.
pub open spec fn sub_view(subcommand: Option<&str>) -> Option<Seq<char>> {
    match subcommand {
        Some(s) => Some(s@),
        None => None,
    }
}

/// ` {subcommand}`, or nothing without a subcommand.
pub open spec fn subcommand_suffix(subcommand: Option<Seq<char>>) -> Seq<char> {
    match subcommand {
        Some(s) => " "@ + s,
        None => Seq::empty(),
    }
}

fn append_subcommand(message: &mut String, subcommand: Option<&str>)
    ensures
        final(message)@ == old(message)@ + subcommand_suffix(sub_view(subcommand)),
{
    match subcommand {
        Some(s) => {
            message.append(" ");
            message.append(s);
        },
        None => {},
    }
}

/// The message for a flag that looks like `expected`.
pub open spec fn similar_message(flag: Seq<char>, subcommand: Option<Seq<char>>, expected: Seq<char>) -> Seq<char> {
    "Found argument '"@ + flag + "' which wasn't expected, or isn't valid in this context\n        Did you mean "@
        + expected + "?\n\nUSAGE:\n    cargo hack"@ + subcommand_suffix(subcommand) + " "@ + expected
        + "\n\nFor more information try --help\n"@
}

/// The error for a flag that looks like `expected`.
pub fn similar_arg(flag: &OwnedFlag, subcommand: Option<&str>, expected: &str) -> (res: Result<(), Error>)
    ensures
        match res {
            Ok(_) => false,
            Err(e) => e@ == similar_message(flag_text(*flag), sub_view(subcommand), expected@),
        },
{
    let f = format_flag(flag);
    let mut message = String::from_str("Found argument '");
    message.append(f.as_str());
    message.append("' which wasn't expected, or isn't valid in this context\n        Did you mean ");
    message.append(expected);
    message.append("?\n\nUSAGE:\n    cargo hack");
    append_subcommand(&mut message, subcommand);
    message.append(" ");
    message.append(expected);
    message.append("\n\nFor more information try --help\n");
    Err(Error::msg(message))
}

/// The flag that a mistyped flag most likely means.
pub open spec fn similar_flag(flag: Seq<char>) -> Option<Seq<char>> {
    if flag == "no-dev-dep"@ {
        Some("--no-dev-deps"@)
    } else if flag == "remove-dev-dep"@ {
        Some("--remove-dev-deps"@)
    } else if flag == "each-features"@ {
        Some("--each-feature"@)
    } else if flag == "features-powerset"@ {
        Some("--feature-powerset"@)
    } else if flag == "exclude-no-default-feature"@ {
        Some("--exclude-no-default-features"@)
    } else if flag == "exclude-all-feature"@ {
        Some("--exclude-all-features"@)
    } else if flag == "include-dep-features"@ || flag == "include-dep-feature"@ || flag == "include-deps-feature"@ {
        Some("--include-deps-features"@)
    } else if flag == "ignore-unknown-feature"@ {
        Some("--ignore-unknown-features"@)
    } else {
        None
    }
}

/// An error for a mistyped long flag, naming the flag it likely means.
pub fn similar_flags(flag: &str, subcommand: Option<&str>) -> (res: Result<(), Error>)
    ensures
        match similar_flag(flag@) {
            None => res is Ok,
            Some(expected) => res matches Err(e) && e@ == similar_message("--"@ + flag@, sub_view(subcommand), expected),
        },
{
    let expected = if str_eq(flag, "no-dev-dep") {
        "--no-dev-deps"
    } else if str_eq(flag, "remove-dev-dep") {
        "--remove-dev-deps"
    } else if str_eq(flag, "each-features") {
        "--each-feature"
    } else if str_eq(flag, "features-powerset") {
        "--feature-powerset"
    } else if str_eq(flag, "exclude-no-default-feature") {
        "--exclude-no-default-features"
    } else if str_eq(flag, "exclude-all-feature") {
        "--exclude-all-features"
    } else if str_eq(flag, "include-dep-features") || str_eq(flag, "include-dep-feature") || str_eq(
        flag,
        "include-deps-feature",
    ) {
        "--include-deps-features"
    } else if str_eq(flag, "ignore-unknown-feature") {
        "--ignore-unknown-features"
    } else {
        return Ok(());
    };
    let owned = OwnedFlag::Long(String::from_str(flag));
    similar_arg(&owned, subcommand, expected)
}

/// The short usage that follows `msg`.
pub open spec fn mini_usage_message(msg: Seq<char>) -> Seq<char> {
    msg + "\n\nUSAGE:\n    cargo hack [OPTIONS] [SUBCOMMAND]\n\nFor more information try --help"@
}

/// Always the error `msg` followed by the short usage.
pub fn mini_usage(msg: &str) -> (res: Result<(), Error>)
    ensures
        match res {
            Ok(_) => false,
            Err(e) => e@ == mini_usage_message(msg@),
        },
{
    let mut message = String::from_str(msg);
    message.append("\n\nUSAGE:\n    cargo hack [OPTIONS] [SUBCOMMAND]\n\nFor more information try --help");
    Err(Error::msg(message))
}

/// How a list of features given on the command line is split: at commas,
/// else at spaces; a list with neither is refused.
pub open spec fn group_parts(g: Seq<char>) -> Option<Seq<Seq<char>>> {
    if g.contains(',') {
        Some(split_on(g, ','))
    } else if g.contains(' ') {
        Some(split_on(g, ' '))
    } else {
        None
    }
}

/// The message for a feature group that is not a list.
pub open spec fn group_list_message(option_name: Seq<char>) -> Seq<char> {
    "--"@ + option_name + " requires a list of two or more features separated by space or comma"@
}

/// One feature group for each list of `group_features`, each list split at
/// commas or else at spaces; the error if a list has neither.
pub fn parse_grouped_features(group_features: &[String], option_name: &str) -> (res: Result<Vec<Feature>, Error>)
    ensures
        match res {
            Ok(v) => {
                &&& forall|i: int| 0 <= i < group_features@.len() ==> group_parts(#[trigger] group_features@[i]@) is Some
                &&& v@.len() == group_features@.len()
                &&& forall|i: int| 0 <= i < v@.len() ==> (#[trigger] v@[i]) is Group
                    && v@[i].group_view() == group_parts(group_features@[i]@)->0
                    && v@[i].name_view() == join_commas(group_parts(group_features@[i]@)->0)
            },
            Err(e) => {
                &&& exists|i: int| 0 <= i < group_features@.len() && group_parts(#[trigger] group_features@[i]@) is None
                &&& e@ == group_list_message(option_name@)
            },
        },
{
    let mut v: Vec<Feature> = Vec::new();
    let mut i: usize = 0;
    while i < group_features.len()
        invariant
            i <= group_features@.len(),
            v@.len() == i,
            forall|k: int| 0 <= k < i ==> group_parts(#[trigger] group_features@[k]@) is Some,
            forall|k: int| 0 <= k < i ==> (#[trigger] v@[k]) is Group
                && v@[k].group_view() == group_parts(group_features@[k]@)->0
                && v@[k].name_view() == join_commas(group_parts(group_features@[k]@)->0),
        decreases group_features.len() - i,
    {
        let g = group_features[i].as_str();
        let parts = if has_char(g, ',') {
            split_chars(g, ',')
        } else if has_char(g, ' ') {
            split_chars(g, ' ')
        } else {
            let mut message = String::from_str("--");
            message.append(option_name);
            message.append(" requires a list of two or more features separated by space or comma");
            return Err(Error::msg(message));
        };
        let f = Feature::group(parts);
        v.push(f);
        i = i + 1;
    }
    Ok(v)
}

/// A `-Z` value names the flag `name`: it is `name`, or starts `name=`.
pub open spec fn names_z_flag(value: Seq<char>, name: Seq<char>) -> bool {
    has_prefix(value, name) && (value.len() == name.len() || value[name.len() as int] == '=')
}

/// Whether the arguments `args` pass the unstable flag `-Z name`, either
/// as `-Z name[=...]` or as `-Zname[=...]`; `None` where a trailing `-Z`
/// has no value.
pub open spec fn z_flag_scan(args: Seq<Seq<char>>, name: Seq<char>) -> Option<bool>
    decreases args.len(),
{
    if args.len() == 0 {
        Some(false)
    } else if args[0] == seq!['-', 'Z'] {
        if args.len() == 1 {
            None
        } else if names_z_flag(args[1], name) {
            Some(true)
        } else {
            z_flag_scan(args.skip(2), name)
        }
    } else if has_prefix(args[0], seq!['-', 'Z']) {
        if names_z_flag(args[0].skip(2), name) {
            Some(true)
        } else {
            z_flag_scan(args.skip(1), name)
        }
    } else {
        z_flag_scan(args.skip(1), name)
    }
}

/// Whether `value` is `name` or starts `name=`.
fn names_z_flag_exec(value: &[char], name: &[char]) -> (res: bool)
    ensures
        res == names_z_flag(value@, name@),
{
    if !crate::text::starts_with_chars(value, name) {
        return false;
    }
    value.len() == name.len() || value[name.len()] == '='
}

/// Whether `args` pass the unstable flag `-Z name`; `None` where a
/// trailing `-Z` has no value.
pub fn scan_z_flag(args: &[String], name: &str) -> (res: Option<bool>)
    ensures
        res == z_flag_scan(views(args@), name@),
{
    let ghost all = views(args@);
    let nm = crate::text::chars_of(name);
    let dash_z: [char; 2] = ['-', 'Z'];
    let mut i: usize = 0;
    proof {
        assert(all.skip(0) =~= all);
        assert(dash_z@ =~= seq!['-', 'Z']);
    }
    while i < args.len()
        invariant
            all == views(args@),
            nm@ == name@,
            dash_z@ == seq!['-', 'Z'],
            i <= args@.len(),
            z_flag_scan(all.skip(i as int), name@) == z_flag_scan(all, name@),
        decreases args.len() - i,
    {
        let arg = crate::text::chars_of(args[i].as_str());
        let ghost rest = all.skip(i as int);
        proof {
            assert(rest[0] == args@[i as int]@);
        }
        if arg.len() == 2 && arg[0] == '-' && arg[1] == 'Z' {
            proof {
                assert(arg@ =~= seq!['-', 'Z']);
            }
            if i + 1 == args.len() {
                return None;
            }
            let value = crate::text::chars_of(args[i + 1].as_str());
            proof {
                assert(rest[1] == args@[i + 1]@);
            }
            if names_z_flag_exec(value.as_slice(), nm.as_slice()) {
                return Some(true);
            }
            proof {
                assert(rest.skip(2) =~= all.skip(i + 2));
            }
            i = i + 2;
        } else {
            proof {
                if arg@ == seq!['-', 'Z'] {
                    assert(arg@.len() == 2 && arg@[0] == '-' && arg@[1] == 'Z');
                }
                assert(rest.skip(1) =~= all.skip(i + 1));
            }
            if crate::text::starts_with_chars(arg.as_slice(), dash_z.as_slice()) {
                let tail = vstd::slice::slice_subrange(arg.as_slice(), 2, arg.len());
                proof {
                    assert(tail@ =~= arg@.skip(2));
                }
                if names_z_flag_exec(tail, nm.as_slice()) {
                    return Some(true);
                }
            }
            i = i + 1;
        }
    }
    proof {
        assert(all.skip(i as int) =~= Seq::<Seq<char>>::empty());
    }
    Some(false)
}

/// Whether `args` pass the unstable flag `-Z name`.
pub fn has_z_flag(args: &[String], name: &str) -> (res: bool)
    requires
        z_flag_scan(views(args@), name@) is Some,
    ensures
        res == z_flag_scan(views(args@), name@)->0,
{
    match scan_z_flag(args, name) {
        Some(b) => b,
        None => false,
    }
}

/// A line of the help: short flag, long flag, value name, short
/// description and additional descriptions.
pub struct HelpText {
    pub short: &'static str,
    pub long: &'static str,
    pub value_name: &'static str,
    pub desc: &'static str,
    pub additional: Vec<&'static str>,
}

/// A line of the help as plain values: short flag, long flag, value name,
/// short description and additional descriptions.
pub type HelpLine = (Seq<char>, Seq<char>, Seq<char>, Seq<char>, Seq<Seq<char>>);

/// The lines of the help, in order.
pub open spec fn help_lines() -> Seq<HelpLine> {
    seq![
        ("-p"@, "--package"@, "<SPEC>..."@, "Package(s) to check"@, Seq::empty()),
        (""@, "--all"@, ""@, "Alias for --workspace"@, Seq::empty()),
        (""@, "--workspace"@, ""@, "Perform command for all packages in the workspace"@, Seq::empty()),
        (""@, "--exclude"@, "<SPEC>..."@, "Exclude packages from the check"@, seq!["This flag can only be used together with --workspace"@]),
        (""@, "--manifest-path"@, "<PATH>"@, "Path to Cargo.toml"@, Seq::empty()),
        ("-F"@, "--features"@, "<FEATURES>..."@, "Space or comma separated list of features to activate"@, Seq::empty()),
        (""@, "--each-feature"@, ""@, "Perform for each feature of the package"@, seq!["This also includes runs with just --no-default-features flag, and default features."@, "When this flag is not used together with --exclude-features (--skip) and \
         --include-features and there are multiple features, this also includes runs with \
         just --all-features flag."@]),
        (""@, "--feature-powerset"@, ""@, "Perform for the feature powerset of the package"@, seq!["This also includes runs with just --no-default-features flag, and default features."@, "When this flag is used together with --depth or namespaced features \
         (-Z namespaced-features) and not used together with --exclude-features (--skip) and \
         --include-features and there are multiple features, this also includes runs with just \
         --all-features flag."@]),
        (""@, "--optional-deps"@, "[DEPS]..."@, "Use optional dependencies as features"@, seq!["If DEPS are not specified, all optional dependencies are considered as features."@, "This flag can only be used together with either --each-feature flag or --feature-powerset \
         flag."@]),
        (""@, "--skip"@, "<FEATURES>..."@, "Alias for --exclude-features"@, Seq::empty()),
        (""@, "--exclude-features"@, "<FEATURES>..."@, "Space or comma separated list of features to exclude"@, seq!["To exclude run of default feature, using value `--exclude-features default`."@, "To exclude run of just --no-default-features flag, using --exclude-no-default-features \
         flag."@, "To exclude run of just --all-features flag, using --exclude-all-features flag."@, "This flag can only be used together with either --each-feature flag or --feature-powerset \
         flag."@]),
        (""@, "--exclude-no-default-features"@, ""@, "Exclude run of just --no-default-features flag"@, seq!["This flag can only be used together with either --each-feature flag or --feature-powerset \
         flag."@]),
        (""@, "--exclude-all-features"@, ""@, "Exclude run of just --all-features flag"@, seq!["This flag can only be used together with either --each-feature flag or --feature-powerset \
         flag."@]),
        (""@, "--depth"@, "<NUM>"@, "Specify a max number of simultaneous feature flags of --feature-powerset"@, seq!["If NUM is set to 1, --feature-powerset is equivalent to --each-feature."@, "This flag can only be used together with --feature-powerset flag."@]),
        (""@, "--group-features"@, "<FEATURES>..."@, "Space or comma separated list of features to group"@, seq!["To specify multiple groups, use this option multiple times: `--group-features a,b \
         --group-features c,d`"@, "This flag can only be used together with --feature-powerset flag."@]),
        (""@, "--at-least-one-of"@, "<FEATURES>..."@, "Space or comma separated list of features. Skips sets of features that don't enable any of the features listed"@, seq!["To specify multiple groups, use this option multiple times: `--at-least-one-of a,b \
         --at-least-one-of c,d`"@, "This flag can only be used together with --feature-powerset flag."@]),
        (""@, "--include-features"@, "<FEATURES>..."@, "Include only the specified features in the feature combinations instead of package \
         features"@, seq!["This flag can only be used together with either --each-feature flag or \
             --feature-powerset flag."@]),
        (""@, "--no-dev-deps"@, ""@, "Perform without dev-dependencies"@, seq!["Note that this flag removes dev-dependencies from real `Cargo.toml` while cargo-hack is \
         running and restores it when finished."@]),
        (""@, "--remove-dev-deps"@, ""@, "Equivalent to --no-dev-deps flag except for does not restore the original `Cargo.toml` \
         after performed"@, Seq::empty()),
        (""@, "--no-private"@, ""@, "Perform without `publish = false` crates"@, Seq::empty()),
        (""@, "--ignore-private"@, ""@, "Skip to perform on `publish = false` packages"@, Seq::empty()),
        (""@, "--ignore-unknown-features"@, ""@, "Skip passing --features flag to `cargo` if that feature does not exist in the package"@, seq!["This flag can only be used together with either --features or --include-features."@]),
        (""@, "--version-range"@, "[START]..[=END]"@, "Perform commands on a specified (inclusive) range of Rust versions"@, seq!["If the upper bound of the range is omitted, the latest stable compiler is used as the \
             upper bound."@, "If the lower bound of the range is omitted, the value of the `rust-version` field in \
             `Cargo.toml` is used as the lower bound."@, "Note that ranges are always inclusive ranges."@]),
        (""@, "--version-step"@, "<NUM>"@, "Specify the version interval of --version-range (default to `1`)"@, seq!["This flag can only be used together with --version-range flag."@]),
        (""@, "--clean-per-run"@, ""@, "Remove artifacts for that package before running the command"@, seq!["If used this flag with --workspace, --each-feature, or --feature-powerset, artifacts will \
         be removed before each run."@, "Note that dependencies artifacts will be preserved."@]),
        (""@, "--clean-per-version"@, ""@, "Remove artifacts per Rust version"@, seq!["Note that dependencies artifacts will also be removed."@, "This flag can only be used together with --version-range flag."@]),
        (""@, "--keep-going"@, ""@, "Keep going on failure"@, Seq::empty()),
        (""@, "--print-command-list"@, ""@, "Print commands without run (Unstable)"@, Seq::empty()),
        (""@, "--no-manifest-path"@, ""@, "Do not pass --manifest-path option to cargo (Unstable)"@, Seq::empty()),
        ("-v"@, "--verbose"@, ""@, "Use verbose output"@, Seq::empty()),
        (""@, "--color"@, "<WHEN>"@, "Coloring: auto, always, never"@, seq!["This flag will be propagated to cargo."@]),
        ("-h"@, "--help"@, ""@, "Prints help information"@, Seq::empty()),
        ("-V"@, "--version"@, ""@, "Prints version information"@, Seq::empty()),
    ]
}

/// A help line as plain values.
pub open spec fn help_line_of(h: HelpText) -> HelpLine {
    (h.short@, h.long@, h.value_name@, h.desc@, h.additional@.map_values(|a: &str| a@))
}

/// The lines of the help, in order.
pub fn help_table() -> (res: Vec<HelpText>)
    ensures
        res@.map_values(|h: HelpText| help_line_of(h)) == help_lines(),
{
    let res = vec![
        HelpText {
            short: "-p",
            long: "--package",
            value_name: "<SPEC>...",
            desc: "Package(s) to check",
            additional: vec![],
        },
        HelpText {
            short: "",
            long: "--all",
            value_name: "",
            desc: "Alias for --workspace",
            additional: vec![],
        },
        HelpText {
            short: "",
            long: "--workspace",
            value_name: "",
            desc: "Perform command for all packages in the workspace",
            additional: vec![],
        },
        HelpText {
            short: "",
            long: "--exclude",
            value_name: "<SPEC>...",
            desc: "Exclude packages from the check",
            additional: vec!["This flag can only be used together with --workspace"],
        },
        HelpText {
            short: "",
            long: "--manifest-path",
            value_name: "<PATH>",
            desc: "Path to Cargo.toml",
            additional: vec![],
        },
        HelpText {
            short: "-F",
            long: "--features",
            value_name: "<FEATURES>...",
            desc: "Space or comma separated list of features to activate",
            additional: vec![],
        },
        HelpText {
            short: "",
            long: "--each-feature",
            value_name: "",
            desc: "Perform for each feature of the package",
            additional: vec!["This also includes runs with just --no-default-features flag, and default features.", "When this flag is not used together with --exclude-features (--skip) and \
         --include-features and there are multiple features, this also includes runs with \
         just --all-features flag."],
        },
        HelpText {
            short: "",
            long: "--feature-powerset",
            value_name: "",
            desc: "Perform for the feature powerset of the package",
            additional: vec!["This also includes runs with just --no-default-features flag, and default features.", "When this flag is used together with --depth or namespaced features \
         (-Z namespaced-features) and not used together with --exclude-features (--skip) and \
         --include-features and there are multiple features, this also includes runs with just \
         --all-features flag."],
        },
        HelpText {
            short: "",
            long: "--optional-deps",
            value_name: "[DEPS]...",
            desc: "Use optional dependencies as features",
            additional: vec!["If DEPS are not specified, all optional dependencies are considered as features.", "This flag can only be used together with either --each-feature flag or --feature-powerset \
         flag."],
        },
        HelpText {
            short: "",
            long: "--skip",
            value_name: "<FEATURES>...",
            desc: "Alias for --exclude-features",
            additional: vec![],
        },
        HelpText {
            short: "",
            long: "--exclude-features",
            value_name: "<FEATURES>...",
            desc: "Space or comma separated list of features to exclude",
            additional: vec!["To exclude run of default feature, using value `--exclude-features default`.", "To exclude run of just --no-default-features flag, using --exclude-no-default-features \
         flag.", "To exclude run of just --all-features flag, using --exclude-all-features flag.", "This flag can only be used together with either --each-feature flag or --feature-powerset \
         flag."],
        },
        HelpText {
            short: "",
            long: "--exclude-no-default-features",
            value_name: "",
            desc: "Exclude run of just --no-default-features flag",
            additional: vec!["This flag can only be used together with either --each-feature flag or --feature-powerset \
         flag."],
        },
        HelpText {
            short: "",
            long: "--exclude-all-features",
            value_name: "",
            desc: "Exclude run of just --all-features flag",
            additional: vec!["This flag can only be used together with either --each-feature flag or --feature-powerset \
         flag."],
        },
        HelpText {
            short: "",
            long: "--depth",
            value_name: "<NUM>",
            desc: "Specify a max number of simultaneous feature flags of --feature-powerset",
            additional: vec!["If NUM is set to 1, --feature-powerset is equivalent to --each-feature.", "This flag can only be used together with --feature-powerset flag."],
        },
        HelpText {
            short: "",
            long: "--group-features",
            value_name: "<FEATURES>...",
            desc: "Space or comma separated list of features to group",
            additional: vec!["To specify multiple groups, use this option multiple times: `--group-features a,b \
         --group-features c,d`", "This flag can only be used together with --feature-powerset flag."],
        },
        HelpText {
            short: "",
            long: "--at-least-one-of",
            value_name: "<FEATURES>...",
            desc: "Space or comma separated list of features. Skips sets of features that don't enable any of the features listed",
            additional: vec!["To specify multiple groups, use this option multiple times: `--at-least-one-of a,b \
         --at-least-one-of c,d`", "This flag can only be used together with --feature-powerset flag."],
        },
        HelpText {
            short: "",
            long: "--include-features",
            value_name: "<FEATURES>...",
            desc: "Include only the specified features in the feature combinations instead of package \
         features",
            additional: vec!["This flag can only be used together with either --each-feature flag or \
             --feature-powerset flag."],
        },
        HelpText {
            short: "",
            long: "--no-dev-deps",
            value_name: "",
            desc: "Perform without dev-dependencies",
            additional: vec!["Note that this flag removes dev-dependencies from real `Cargo.toml` while cargo-hack is \
         running and restores it when finished."],
        },
        HelpText {
            short: "",
            long: "--remove-dev-deps",
            value_name: "",
            desc: "Equivalent to --no-dev-deps flag except for does not restore the original `Cargo.toml` \
         after performed",
            additional: vec![],
        },
        HelpText {
            short: "",
            long: "--no-private",
            value_name: "",
            desc: "Perform without `publish = false` crates",
            additional: vec![],
        },
        HelpText {
            short: "",
            long: "--ignore-private",
            value_name: "",
            desc: "Skip to perform on `publish = false` packages",
            additional: vec![],
        },
        HelpText {
            short: "",
            long: "--ignore-unknown-features",
            value_name: "",
            desc: "Skip passing --features flag to `cargo` if that feature does not exist in the package",
            additional: vec!["This flag can only be used together with either --features or --include-features."],
        },
        HelpText {
            short: "",
            long: "--version-range",
            value_name: "[START]..[=END]",
            desc: "Perform commands on a specified (inclusive) range of Rust versions",
            additional: vec!["If the upper bound of the range is omitted, the latest stable compiler is used as the \
             upper bound.", "If the lower bound of the range is omitted, the value of the `rust-version` field in \
             `Cargo.toml` is used as the lower bound.", "Note that ranges are always inclusive ranges."],
        },
        HelpText {
            short: "",
            long: "--version-step",
            value_name: "<NUM>",
            desc: "Specify the version interval of --version-range (default to `1`)",
            additional: vec!["This flag can only be used together with --version-range flag."],
        },
        HelpText {
            short: "",
            long: "--clean-per-run",
            value_name: "",
            desc: "Remove artifacts for that package before running the command",
            additional: vec!["If used this flag with --workspace, --each-feature, or --feature-powerset, artifacts will \
         be removed before each run.", "Note that dependencies artifacts will be preserved."],
        },
        HelpText {
            short: "",
            long: "--clean-per-version",
            value_name: "",
            desc: "Remove artifacts per Rust version",
            additional: vec!["Note that dependencies artifacts will also be removed.", "This flag can only be used together with --version-range flag."],
        },
        HelpText {
            short: "",
            long: "--keep-going",
            value_name: "",
            desc: "Keep going on failure",
            additional: vec![],
        },
        HelpText {
            short: "",
            long: "--print-command-list",
            value_name: "",
            desc: "Print commands without run (Unstable)",
            additional: vec![],
        },
        HelpText {
            short: "",
            long: "--no-manifest-path",
            value_name: "",
            desc: "Do not pass --manifest-path option to cargo (Unstable)",
            additional: vec![],
        },
        HelpText {
            short: "-v",
            long: "--verbose",
            value_name: "",
            desc: "Use verbose output",
            additional: vec![],
        },
        HelpText {
            short: "",
            long: "--color",
            value_name: "<WHEN>",
            desc: "Coloring: auto, always, never",
            additional: vec!["This flag will be propagated to cargo."],
        },
        HelpText {
            short: "-h",
            long: "--help",
            value_name: "",
            desc: "Prints help information",
            additional: vec![],
        },
        HelpText {
            short: "-V",
            long: "--version",
            value_name: "",
            desc: "Prints version information",
            additional: vec![],
        },
    ];
    proof {
        assert(res@.map_values(|h: HelpText| help_line_of(h)) =~~= help_lines());
    }
    res
}

/// The first help line whose short or long flag is `flag`.
pub open spec fn help_find(t: Seq<HelpLine>, flag: Seq<char>) -> Option<HelpLine>
    decreases t.len(),
{
    if t.len() == 0 {
        None
    } else if t[0].0 == flag || t[0].1 == flag {
        Some(t[0])
    } else {
        help_find(t.drop_first(), flag)
    }
}

/// The help line of `flag`, found by its short or long form.
pub fn get_help(flag: &str) -> (res: Option<HelpText>)
    ensures
        match res {
            Some(h) => help_find(help_lines(), flag@) == Some(help_line_of(h)),
            None => help_find(help_lines(), flag@) is None,
        },
{
    let mut table = help_table();
    let ghost t = help_lines();
    let mut i: usize = 0;
    proof {
        assert(t.skip(0) =~= t);
    }
    while i < table.len()
        invariant
            table@.map_values(|h: HelpText| help_line_of(h)) == t,
            t == help_lines(),
            i <= t.len(),
            help_find(t, flag@) == help_find(t.skip(i as int), flag@),
        decreases table.len() - i,
    {
        proof {
            assert(t.skip(i as int)[0] == help_line_of(table@[i as int]));
        }
        if str_eq(table[i].short, flag) || str_eq(table[i].long, flag) {
            let h = table.swap_remove(i);
            return Some(h);
        }
        proof {
            assert(t.skip(i as int).drop_first() =~= t.skip(i as int + 1));
        }
        i = i + 1;
    }
    None
}

/// The usage shown for a flag given twice: its long form and value name
/// from the help, or the flag as given.
pub open spec fn multi_arg_usage(flag: Seq<char>) -> Seq<char> {
    match help_find(help_lines(), flag) {
        Some(h) => h.1 + " "@ + h.2,
        None => flag,
    }
}

/// The message for a flag given more than once.
pub open spec fn multi_arg_message(flag: Seq<char>, subcommand: Option<Seq<char>>) -> Seq<char> {
    "The argument '"@ + flag + "' was provided more than once, but cannot be used multiple times\n\nUSAGE:\n    cargo hack"@
        + subcommand_suffix(subcommand) + " "@ + multi_arg_usage(flag) + "\n\nFor more information try --help\n"@
}

/// Always the error for a flag given more than once.
pub fn multi_arg(flag: &OwnedFlag, subcommand: Option<&str>) -> (res: Result<(), Error>)
    ensures
        match res {
            Ok(_) => false,
            Err(e) => e@ == multi_arg_message(flag_text(*flag), sub_view(subcommand)),
        },
{
    let f = format_flag(flag);
    let arg = match get_help(f.as_str()) {
        Some(h) => {
            let mut a = String::from_str(h.long);
            a.append(" ");
            a.append(h.value_name);
            a
        },
        None => f.clone(),
    };
    let mut message = String::from_str("The argument '");
    message.append(f.as_str());
    message.append("' was provided more than once, but cannot be used multiple times\n\nUSAGE:\n    cargo hack");
    append_subcommand(&mut message, subcommand);
    message.append(" ");
    message.append(arg.as_str());
    message.append("\n\nFor more information try --help\n");
    Err(Error::msg(message))
}

} // verus!
