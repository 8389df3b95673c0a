//! The command-line tokenizer and classifier: the option catalog, the
//! two-pass splitter that separates the free-text value from the keyed
//! options, and `analyze_args`, which combines them with the command word.
use vstd::prelude::*;
use crate::common_structs::{Command, CommandResult, CommandResultView, OptionMap};
use crate::text::{
    eq_ci, is_wspace, starts_with_seq, str_eq, str_eq_ci, str_starts_with, trim_end_seq,
    trim_seq, trim_start_seq,
};
use crate::text::{trim_end_str, trim_start_str, trim_str};

verus! {

/// The option catalog's pattern spellings, in their scanning order.
/// A pattern ending in `=` matches any word it prefixes; a bare pattern
/// matches only the exact word.
pub open spec fn spec_option_patterns() -> Seq<Seq<char>> {
    seq!["-p="@, "--priority="@, "-t="@, "--title="@, "-s="@, "--sort="@, "-a"@, "--all"@]
}

/// The canonical option name of a word, if the word matches a pattern of
/// the catalog: `=`-suffixed patterns match by prefix, bare patterns by
/// exact equality, and at most one pattern can match a given word.
pub open spec fn spec_option_name(w: Seq<char>) -> Option<Seq<char>> {
    if starts_with_seq(w, "-p="@) || starts_with_seq(w, "--priority="@) {
        Some("priority"@)
    } else if starts_with_seq(w, "-t="@) || starts_with_seq(w, "--title="@) {
        Some("title"@)
    } else if starts_with_seq(w, "-s="@) || starts_with_seq(w, "--sort="@) {
        Some("sort"@)
    } else if w == "-a"@ || w == "--all"@ {
        Some("all"@)
    } else {
        None
    }
}

/// The fixed table of option pattern spellings.
pub fn get_option_patterns() -> (r: Vec<String>)
    ensures
        r.deep_view() == spec_option_patterns(),
{
    let mut v: Vec<String> = Vec::new();
    v.push(String::from_str("-p="));
    v.push(String::from_str("--priority="));
    v.push(String::from_str("-t="));
    v.push(String::from_str("--title="));
    v.push(String::from_str("-s="));
    v.push(String::from_str("--sort="));
    v.push(String::from_str("-a"));
    v.push(String::from_str("--all"));
    proof {
        assert(v.deep_view() =~= spec_option_patterns());
    }
    v
}

/// Maps a word to the canonical option name it spells, if any: `-p=...`
/// and `--priority=...` to `priority`, `-t=`/`--title=` to `title`,
/// `-s=`/`--sort=` to `sort`, and exactly `-a` or `--all` to `all`.
pub fn get_option_name_from_pattern(value: &str) -> (r: Option<String>)
    ensures
        match r {
            Some(n) => spec_option_name(value@) == Some(n@),
            None => spec_option_name(value@) is None,
        },
{
    if str_starts_with(value, "-p=") || str_starts_with(value, "--priority=") {
        Some(String::from_str("priority"))
    } else if str_starts_with(value, "-t=") || str_starts_with(value, "--title=") {
        Some(String::from_str("title"))
    } else if str_starts_with(value, "-s=") || str_starts_with(value, "--sort=") {
        Some(String::from_str("sort"))
    } else if str_eq(value, "-a") || str_eq(value, "--all") {
        Some(String::from_str("all"))
    } else {
        None
    }
}

/// The index of the first `=` in `w`, or `w.len()` if there is none.
pub open spec fn find_eq(w: Seq<char>) -> int
    decreases w.len(),
{
    if w.len() == 0 {
        0
    } else if w[0] == '=' {
        0
    } else {
        1 + find_eq(w.drop_first())
    }
}

proof fn lemma_find_eq_at(w: Seq<char>, i: int)
    requires
        0 <= i <= w.len(),
        forall|k: int| 0 <= k < i ==> w[k] != '=',
        i == w.len() || w[i] == '=',
    ensures
        find_eq(w) == i,
    decreases i,
{
    if i > 0 {
        lemma_find_eq_at(w.drop_first(), i - 1);
    }
}

/// The inline value carried by an option word: everything after the first
/// `=` (later `=` characters kept), right-trimmed; empty when the word has
/// no `=`.
pub open spec fn spec_inline_value(w: Seq<char>) -> Seq<char> {
    if find_eq(w) < w.len() {
        trim_end_seq(w.subrange(find_eq(w) + 1, w.len() as int))
    } else {
        Seq::empty()
    }
}

/// Splits an option word on its first `=` and returns the remainder,
/// right-trimmed; embedded `=` characters are preserved.
pub fn extract_option_value(option: &str) -> (r: String)
    ensures
        r@ == spec_inline_value(option@),
{
    let len = option.unicode_len();
    let mut i: usize = 0;
    loop
        invariant
            0 <= i <= len,
            len == option@.len(),
            forall|k: int| 0 <= k < i ==> option@[k] != '=',
        ensures
            0 <= i <= len,
            forall|k: int| 0 <= k < i ==> option@[k] != '=',
            i == len || option@[i as int] == '=',
        decreases len - i,
    {
        if i >= len {
            break;
        }
        if option.get_char(i) == '=' {
            break;
        }
        i += 1;
    }
    proof {
        lemma_find_eq_at(option@, i as int);
    }
    if i >= len {
        return String::new();
    }
    let tail = option.substring_char(i + 1, len);
    let t = trim_end_str(tail);
    String::from_str(t)
}

/// The free-text words before the first option word, each preceded by a
/// single space.
pub open spec fn spec_value_join(ws: Seq<Seq<char>>) -> Seq<char>
    decreases ws.len(),
{
    if ws.len() == 0 {
        Seq::empty()
    } else if spec_option_name(ws[0]) is Some {
        Seq::empty()
    } else {
        seq![' '] + ws[0] + spec_value_join(ws.drop_first())
    }
}

/// The free-text value of a word list: the words before the first option
/// word, joined by single spaces, with leading whitespace removed.
pub open spec fn spec_extract_value(ws: Seq<Seq<char>>) -> Seq<char> {
    trim_start_seq(spec_value_join(ws))
}

/// Joins the words before the first option word into the free-text value.
pub fn extract_value(values: &Vec<String>) -> (r: String)
    ensures
        r@ == spec_extract_value(values.deep_view()),
{
    let ghost ws = values.deep_view();
    let mut buf = String::new();
    let n = values.len();
    let mut i: usize = 0;
    proof {
        assert(ws.skip(0) =~= ws);
        assert(buf@ + spec_value_join(ws) =~= spec_value_join(ws));
    }
    loop
        invariant
            0 <= i <= n,
            n == ws.len(),
            ws == values.deep_view(),
            spec_value_join(ws) == buf@ + spec_value_join(ws.skip(i as int)),
        ensures
            spec_value_join(ws) == buf@,
        decreases n - i,
    {
        if i >= n {
            proof {
                assert(ws.skip(i as int) =~= Seq::<Seq<char>>::empty());
                assert(buf@ + spec_value_join(ws.skip(i as int)) =~= buf@);
            }
            break;
        }
        proof {
            assert(ws[i as int] == values@[i as int]@);
        }
        let matched = get_option_name_from_pattern(values[i].as_str());
        if matched.is_some() {
            proof {
                assert(spec_value_join(ws.skip(i as int)) =~= Seq::<char>::empty());
                assert(buf@ + spec_value_join(ws.skip(i as int)) =~= buf@);
            }
            break;
        }
        proof {
            reveal_strlit(" ");
            assert(ws.skip(i as int).drop_first() =~= ws.skip(i as int + 1));
            assert(ws.skip(i as int)[0] == ws[i as int]);
            assert(spec_value_join(ws.skip(i as int)) == seq![' '] + ws[i as int]
                + spec_value_join(ws.skip(i as int + 1)));
            assert(" "@ =~= seq![' ']);
            assert(buf@ + (seq![' '] + ws[i as int] + spec_value_join(ws.skip(i as int + 1)))
                =~= (buf@ + " "@ + ws[i as int]) + spec_value_join(ws.skip(i as int + 1)));
        }
        buf.append(" ");
        buf.append(values[i].as_str());
        i += 1;
    }
    let t = trim_start_str(buf.as_str());
    String::from_str(t)
}

/// A word accumulated onto an option value: appended after a single space,
/// or standing alone when the value so far is empty.
pub open spec fn append_word(v: Seq<char>, w: Seq<char>) -> Seq<char> {
    if v.len() > 0 {
        v + seq![' '] + w
    } else {
        w
    }
}

/// One pass of the option scanner over `ws`, carrying the currently open
/// option (name and value accumulated so far) and the options already
/// flushed: an option word flushes the open option and opens a new one
/// with its inline value; any other word accumulates onto the open option;
/// the final open option is flushed at the end.
pub open spec fn opts_fold(
    ws: Seq<Seq<char>>,
    cur: Option<(Seq<char>, Seq<char>)>,
    acc: Map<Seq<char>, Seq<char>>,
) -> Map<Seq<char>, Seq<char>>
    decreases ws.len(),
{
    if ws.len() == 0 {
        match cur {
            Some(nv) => acc.insert(nv.0, nv.1),
            None => acc,
        }
    } else {
        match spec_option_name(ws[0]) {
            Some(name) => opts_fold(
                ws.drop_first(),
                Some((name, spec_inline_value(ws[0]))),
                match cur {
                    Some(nv) => acc.insert(nv.0, nv.1),
                    None => acc,
                },
            ),
            None => opts_fold(
                ws.drop_first(),
                match cur {
                    Some(nv) => Some((nv.0, append_word(nv.1, ws[0]))),
                    None => None,
                },
                acc,
            ),
        }
    }
}

/// The option map of a word list.
pub open spec fn spec_extract_options(ws: Seq<Seq<char>>) -> Map<Seq<char>, Seq<char>> {
    opts_fold(ws, None, Map::empty())
}

/// Scans the word list for option words and accumulates their values.
pub fn extract_options(values: &Vec<String>) -> (r: OptionMap)
    ensures
        r@ == spec_extract_options(values.deep_view()),
{
    let ghost ws = values.deep_view();
    let mut retval = OptionMap::new();
    let mut option_found = false;
    let mut current_option_name = String::new();
    let mut current_option_value = String::new();
    let n = values.len();
    let mut i: usize = 0;
    proof {
        assert(ws.skip(0) =~= ws);
    }
    loop
        invariant
            0 <= i <= n,
            n == ws.len(),
            ws == values.deep_view(),
            opts_fold(
                ws.skip(i as int),
                if option_found {
                    Some((current_option_name@, current_option_value@))
                } else {
                    None
                },
                retval@,
            ) == spec_extract_options(ws),
        ensures
            opts_fold(
                Seq::<Seq<char>>::empty(),
                if option_found {
                    Some((current_option_name@, current_option_value@))
                } else {
                    None
                },
                retval@,
            ) == spec_extract_options(ws),
        decreases n - i,
    {
        if i >= n {
            proof {
                assert(ws.skip(i as int) =~= Seq::<Seq<char>>::empty());
            }
            break;
        }
        proof {
            assert(ws[i as int] == values@[i as int]@);
            assert(ws.skip(i as int).drop_first() =~= ws.skip(i as int + 1));
            assert(ws.skip(i as int)[0] == ws[i as int]);
        }
        match get_option_name_from_pattern(values[i].as_str()) {
            Some(option) => {
                if option_found {
                    retval.insert(current_option_name.as_str(), current_option_value.as_str());
                }
                option_found = true;
                current_option_name = option;
                current_option_value = extract_option_value(values[i].as_str());
            },
            None => {
                if option_found {
                    proof {
                        reveal_strlit(" ");
                        assert(" "@ =~= seq![' ']);
                        if current_option_value@.len() > 0 {
                            assert(current_option_value@ + " "@ + ws[i as int] =~= append_word(
                                current_option_value@,
                                ws[i as int],
                            ));
                        } else {
                            assert(current_option_value@ + ws[i as int] =~= append_word(
                                current_option_value@,
                                ws[i as int],
                            ));
                        }
                    }
                    if current_option_value.unicode_len() > 0 {
                        current_option_value.append(" ");
                    }
                    current_option_value.append(values[i].as_str());
                }
            },
        }
        i += 1;
    }
    if option_found {
        retval.insert(current_option_name.as_str(), current_option_value.as_str());
    }
    retval
}

/// The command kind a first argument denotes: trimmed and compared
/// case-insensitively against the fixed name table; the empty word denotes
/// no command at all, and any other unmatched word denotes `Unknown`.
pub open spec fn spec_classify(s: Seq<char>) -> Option<Command> {
    let t = trim_seq(s);
    if t.len() == 0 {
        None
    } else if eq_ci(t, "add"@) {
        Some(Command::Add)
    } else if eq_ci(t, "edit"@) {
        Some(Command::Edit)
    } else if eq_ci(t, "delete"@) {
        Some(Command::Delete)
    } else if eq_ci(t, "done"@) {
        Some(Command::Done)
    } else if eq_ci(t, "fetch"@) {
        Some(Command::Fetch)
    } else if eq_ci(t, "list"@) {
        Some(Command::List)
    } else if eq_ci(t, "next"@) {
        Some(Command::Next)
    } else if eq_ci(t, "purge"@) {
        Some(Command::Purge)
    } else if eq_ci(t, "remove"@) {
        Some(Command::Remove)
    } else {
        Some(Command::Unknown)
    }
}

/// Classifies the first argument of an invocation.
pub fn extract_command(value: String) -> (r: Option<Command>)
    ensures
        r == spec_classify(value@),
{
    let t = trim_str(value.as_str());
    if t.unicode_len() == 0 {
        None
    } else if str_eq_ci(t, "add") {
        Some(Command::Add)
    } else if str_eq_ci(t, "edit") {
        Some(Command::Edit)
    } else if str_eq_ci(t, "delete") {
        Some(Command::Delete)
    } else if str_eq_ci(t, "done") {
        Some(Command::Done)
    } else if str_eq_ci(t, "fetch") {
        Some(Command::Fetch)
    } else if str_eq_ci(t, "list") {
        Some(Command::List)
    } else if str_eq_ci(t, "next") {
        Some(Command::Next)
    } else if str_eq_ci(t, "purge") {
        Some(Command::Purge)
    } else if str_eq_ci(t, "remove") {
        Some(Command::Remove)
    } else {
        Some(Command::Unknown)
    }
}

/// Analyzes a raw argument list into a parsed command. An empty list, or a
/// blank first argument, yields no command; otherwise the first argument
/// is classified and the remaining words are split into the free-text
/// value and the option map.
pub fn analyze_args(args: Vec<String>) -> (r: Option<CommandResult>)
    ensures
        args.deep_view().len() == 0 ==> r is None,
        match r {
            None => args.deep_view().len() == 0 || spec_classify(args.deep_view()[0]) is None,
            Some(cr) => args.deep_view().len() > 0 && spec_classify(args.deep_view()[0])
                == Some(cr@.command) && cr@.value == spec_extract_value(
                args.deep_view().drop_first(),
            ) && cr@.options == spec_extract_options(args.deep_view().drop_first()),
        },
{
    let ghost ws = args.deep_view();
    if args.len() == 0 {
        return None;
    }
    let mut tail: Vec<String> = Vec::new();
    let mut i: usize = 1;
    loop
        invariant
            1 <= i <= args.len(),
            ws == args.deep_view(),
            ws.len() == args.len(),
            tail.deep_view() =~= ws.subrange(1, i as int),
        ensures
            tail.deep_view() =~= ws.drop_first(),
        decreases args.len() - i,
    {
        if i >= args.len() {
            proof {
                assert(ws.subrange(1, i as int) =~= ws.drop_first());
            }
            break;
        }
        let w = args[i].clone();
        proof {
            assert(ws[i as int] == args@[i as int]@);
            assert(tail.deep_view().push(args@[i as int]@) =~= ws.subrange(1, i as int + 1));
        }
        tail.push(w);
        proof {
            assert(tail.deep_view() =~= ws.subrange(1, i as int + 1));
        }
        i += 1;
    }
    let value_extracted = extract_value(&tail);
    let options_extracted = extract_options(&tail);
    let command_extracted = extract_command(args[0].clone());
    proof {
        assert(ws[0] == args@[0]@);
    }
    match command_extracted {
        Some(command) => Some(
            CommandResult::new(command, value_extracted.as_str(), options_extracted),
        ),
        None => None,
    }
}

} // verus!
