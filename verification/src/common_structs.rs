//! The shared vocabulary of the command-line surface: the command kinds,
//! the priority levels, the typed errors, the canonical-option map built by
//! the tokenizer, and the parsed-command triple.
use vstd::prelude::*;
use crate::text::{dec_seq, digit_val, is_digit, str_eq};

verus! {

/// The command word of an invocation. `Unknown` stands for any non-empty
/// first argument that matches no known name; the absence of a command is
/// expressed by `analyze_args` returning `None`, not by a variant.
#[derive(Clone, Copy, Debug, PartialEq, Eq, Structural)]
pub enum Command {
    Unknown,
    Add,
    Edit,
    Done,
    Delete,
    Fetch,
    List,
    Purge,
    Next,
    Remove,
}

/// A priority level of a todo. The declaration order (`High` first) is the
/// default sort order of the listing: `High` sorts before `Medium` before
/// `Low`.
#[derive(Clone, Copy, Debug, PartialEq, Eq, Structural)]
pub enum Priority {
    High,
    Medium,
    Low,
}

/// The rank of a priority in the declaration order: `High` is 0, `Medium`
/// is 1, `Low` is 2.
pub open spec fn prio_rank(p: Priority) -> int {
    match p {
        Priority::High => 0,
        Priority::Medium => 1,
        Priority::Low => 2,
    }
}

/// The display name of a priority.
pub open spec fn spec_priority_name(p: Priority) -> Seq<char> {
    match p {
        Priority::High => "High"@,
        Priority::Medium => "Medium"@,
        Priority::Low => "Low"@,
    }
}

/// The priority denoted by a one-letter value: `h`/`H`, `m`/`M`, `l`/`L`;
/// anything else denotes none.
pub open spec fn spec_priority_from(s: Seq<char>) -> Option<Priority> {
    if s == "h"@ || s == "H"@ {
        Some(Priority::High)
    } else if s == "m"@ || s == "M"@ {
        Some(Priority::Medium)
    } else if s == "l"@ || s == "L"@ {
        Some(Priority::Low)
    } else {
        None
    }
}

impl Priority {
    /// The display name of the priority, as the listing renders it.
    pub fn to_string(&self) -> (r: String)
        ensures
            r@ == spec_priority_name(*self),
    {
        match self {
            Priority::High => String::from_str("High"),
            Priority::Medium => String::from_str("Medium"),
            Priority::Low => String::from_str("Low"),
        }
    }

    /// Reads a one-letter priority value, upper or lower case.
    pub fn from_string(value: &str) -> (r: Option<Priority>)
        ensures
            r == spec_priority_from(value@),
    {
        if str_eq(value, "h") || str_eq(value, "H") {
            Some(Priority::High)
        } else if str_eq(value, "m") || str_eq(value, "M") {
            Some(Priority::Medium)
        } else if str_eq(value, "l") || str_eq(value, "L") {
            Some(Priority::Low)
        } else {
            None
        }
    }
}

/// A typed failure of validation, parsing, lookup or the store codec.
/// `message` renders the text that the command-line shell prints.
#[derive(Clone, Copy, Debug, PartialEq, Eq, Structural)]
pub enum TodoError {
    /// The free-text value of a command was empty or blank.
    EmptyValue,
    /// A todo was constructed with an empty or blank title.
    TitleRequired,
    /// A todo's title was set to an empty or blank string.
    TitleEmpty,
    /// The `title` option of an edit was empty or blank.
    OptionTitleEmpty,
    /// An edit supplied neither a title nor a priority.
    NoOptionSupplied,
    /// A `priority` option value was not one of H, M or L.
    InvalidPriority,
    /// A `sort` option value was not a known sort-order name.
    InvalidSort,
    /// An id did not parse as an unsigned integer.
    InvalidDigit,
    /// An id parsed as an integer too large for its type.
    NumberTooLarge,
    /// No todo with the given id (and required state) exists.
    NotFound(u32),
    /// The todo with the given id is already completed.
    AlreadyCompleted(u32),
    /// The store's content is not a valid serialized todo collection.
    StoreFormat,
}

/// The message text of each error.
pub open spec fn spec_message(e: TodoError) -> Seq<char> {
    match e {
        TodoError::EmptyValue => "Value cannot be empty"@,
        TodoError::TitleRequired => "Title is required"@,
        TodoError::TitleEmpty => "Title cannot be empty"@,
        TodoError::OptionTitleEmpty => "The title cannot be empty"@,
        TodoError::NoOptionSupplied => "At least one option must be supplied"@,
        TodoError::InvalidPriority => "Invalid priority value. Must be H, M or L"@,
        TodoError::InvalidSort => (
        "Invalid sort value. Must be PriorityDESC, Priority, CreationTimeDESC or CreationTime"@),
        TodoError::InvalidDigit => "invalid digit found in string"@,
        TodoError::NumberTooLarge => "number too large to fit in target type"@,
        TodoError::NotFound(id) => "Unable to find the todo with id "@ + dec_seq(id as nat),
        TodoError::AlreadyCompleted(id) => (
        "The todo with id "@ + dec_seq(id as nat) + " is already completed"@),
        TodoError::StoreFormat => "The todo store is not in a valid format"@,
    }
}

impl TodoError {
    /// The message that the shell prints for this error.
    pub fn message(&self) -> (r: String)
        ensures
            r@ == spec_message(*self),
    {
        match self {
            TodoError::EmptyValue => String::from_str("Value cannot be empty"),
            TodoError::TitleRequired => String::from_str("Title is required"),
            TodoError::TitleEmpty => String::from_str("Title cannot be empty"),
            TodoError::OptionTitleEmpty => String::from_str("The title cannot be empty"),
            TodoError::NoOptionSupplied => String::from_str("At least one option must be supplied"),
            TodoError::InvalidPriority => String::from_str(
                "Invalid priority value. Must be H, M or L",
            ),
            TodoError::InvalidSort => String::from_str(
                "Invalid sort value. Must be PriorityDESC, Priority, CreationTimeDESC or CreationTime",
            ),
            TodoError::InvalidDigit => String::from_str("invalid digit found in string"),
            TodoError::NumberTooLarge => String::from_str("number too large to fit in target type"),
            TodoError::NotFound(id) => {
                let mut s = String::from_str("Unable to find the todo with id ");
                let ds = crate::text::u32_to_string(*id);
                s.append(ds.as_str());
                s
            },
            TodoError::AlreadyCompleted(id) => {
                let mut s = String::from_str("The todo with id ");
                let ds = crate::text::u32_to_string(*id);
                s.append(ds.as_str());
                s.append(" is already completed");
                s
            },
            TodoError::StoreFormat => String::from_str("The todo store is not in a valid format"),
        }
    }
}

/// One step of reading an unsigned 32-bit decimal number: the digits from
/// position `i` on, with `acc` the value of the digits already read.
pub open spec fn scan_u32(s: Seq<char>, i: int, acc: int) -> Result<u32, TodoError>
    decreases s.len() - i,
{
    if i < 0 || i >= s.len() {
        Ok(acc as u32)
    } else if !is_digit(s[i]) {
        Err(TodoError::InvalidDigit)
    } else if acc * 10 + digit_val(s[i]) > 0xFFFF_FFFF {
        Err(TodoError::NumberTooLarge)
    } else {
        scan_u32(s, i + 1, acc * 10 + digit_val(s[i]))
    }
}

/// What parsing a `u32` from `s` yields: an optional leading `+`, then one
/// or more digits; a non-digit fails with `InvalidDigit`, and a value over
/// `u32::MAX` fails with `NumberTooLarge` at the digit that overflows.
pub open spec fn spec_parse_u32(s: Seq<char>) -> Result<u32, TodoError> {
    let start: int = if s.len() > 0 && s[0] == '+' {
        1
    } else {
        0
    };
    if s.len() <= start {
        Err(TodoError::InvalidDigit)
    } else {
        scan_u32(s, start, 0)
    }
}

/// Parses an unsigned 32-bit decimal number, as the command constructors
/// read an id from their free-text value.
pub fn parse_u32(s: &str) -> (r: Result<u32, TodoError>)
    ensures
        r == spec_parse_u32(s@),
{
    let len = s.unicode_len();
    let start: usize = if len > 0 && s.get_char(0) == '+' {
        1
    } else {
        0
    };
    if len <= start {
        return Err(TodoError::InvalidDigit);
    }
    let mut i: usize = start;
    let mut acc: u32 = 0;
    loop
        invariant
            start <= i <= len,
            len == s@.len(),
            len > start,
            scan_u32(s@, i as int, acc as int) == spec_parse_u32(s@),
        ensures
            i == len,
            scan_u32(s@, i as int, acc as int) == spec_parse_u32(s@),
        decreases len - i,
    {
        if i >= len {
            break;
        }
        let c = s.get_char(i);
        let u = c as u32;
        if !(48 <= u && u <= 57) {
            return Err(TodoError::InvalidDigit);
        }
        let d = u - 48;
        let wide: u64 = (acc as u64) * 10 + (d as u64);
        if wide > 0xFFFF_FFFF {
            return Err(TodoError::NumberTooLarge);
        }
        acc = wide as u32;
        i += 1;
    }
    Ok(acc)
}

/// The map from canonical option names to their accumulated values that
/// the tokenizer produces. Keys are held at most once.
pub struct OptionMap {
    entries: Vec<(String, String)>,
}

/// The mapping that an entry list denotes: later entries shadow earlier
/// ones with the same key.
pub open spec fn entries_map(s: Seq<(String, String)>) -> Map<Seq<char>, Seq<char>>
    decreases s.len(),
{
    if s.len() == 0 {
        Map::empty()
    } else {
        entries_map(s.drop_last()).insert(s.last().0@, s.last().1@)
    }
}

impl View for OptionMap {
    type V = Map<Seq<char>, Seq<char>>;

    closed spec fn view(&self) -> Map<Seq<char>, Seq<char>> {
        entries_map(self.entries@)
    }
}

/// The index of the last entry holding key `k`, or -1 if there is none.
pub open spec fn find_last(s: Seq<(String, String)>, k: Seq<char>) -> int
    decreases s.len(),
{
    if s.len() == 0 {
        -1
    } else if s.last().0@ == k {
        s.len() - 1
    } else {
        find_last(s.drop_last(), k)
    }
}

proof fn lemma_entries_map_lookup(s: Seq<(String, String)>, k: Seq<char>)
    ensures
        find_last(s, k) == -1 ==> !entries_map(s).contains_key(k),
        find_last(s, k) >= 0 ==> 0 <= find_last(s, k) < s.len() && s[find_last(s, k)].0@ == k
            && entries_map(s).contains_key(k) && entries_map(s)[k] == s[find_last(s, k)].1@,
    decreases s.len(),
{
    if s.len() > 0 {
        lemma_entries_map_lookup(s.drop_last(), k);
    }
}

proof fn lemma_find_last_at(s: Seq<(String, String)>, k: Seq<char>, j: int)
    requires
        0 <= j < s.len(),
        s[j].0@ == k,
        forall|l: int| j < l < s.len() ==> s[l].0@ != k,
    ensures
        find_last(s, k) == j,
    decreases s.len(),
{
    if j < s.len() - 1 {
        lemma_find_last_at(s.drop_last(), k, j);
    }
}

proof fn lemma_entries_map_push(s: Seq<(String, String)>, p: (String, String))
    ensures
        entries_map(s.push(p)) == entries_map(s).insert(p.0@, p.1@),
{
    assert(s.push(p).drop_last() =~= s);
    assert(s.push(p).last() == p);
}

proof fn lemma_entries_map_dom(s: Seq<(String, String)>)
    ensures
        entries_map(s).dom().finite(),
        forall|k: Seq<char>|
            entries_map(s).contains_key(k) <==> exists|i: int| 0 <= i < s.len() && (#[trigger] s[i].0@)
                == k,
    decreases s.len(),
{
    if s.len() == 0 {
        assert(entries_map(s).dom() =~= Set::<Seq<char>>::empty());
    } else {
        let t = s.drop_last();
        lemma_entries_map_dom(t);
        assert forall|k: Seq<char>| entries_map(s).contains_key(k) implies exists|i: int|
            0 <= i < s.len() && (#[trigger] s[i].0@) == k by {
            if k == s.last().0@ {
                assert(s[s.len() - 1].0@ == k);
            } else {
                let i = choose|i: int| 0 <= i < t.len() && (#[trigger] t[i].0@) == k;
                assert(s[i].0@ == k);
            }
        }
        assert forall|k: Seq<char>|
            (exists|i: int| 0 <= i < s.len() && (#[trigger] s[i].0@) == k) implies entries_map(
            s,
        ).contains_key(k) by {
            let i = choose|i: int| 0 <= i < s.len() && (#[trigger] s[i].0@) == k;
            if i < s.len() - 1 {
                assert(t[i].0@ == k);
            }
        }
    }
}

impl OptionMap {
    /// An empty map.
    pub fn new() -> (r: OptionMap)
        ensures
            r@ == Map::<Seq<char>, Seq<char>>::empty(),
    {
        OptionMap { entries: Vec::new() }
    }

    /// Binds `key` to `value`, replacing any earlier binding.
    pub fn insert(&mut self, key: &str, value: &str)
        ensures
            final(self)@ == old(self)@.insert(key@, value@),
    {
        let p = (String::from_str(key), String::from_str(value));
        proof {
            lemma_entries_map_push(self.entries@, p);
        }
        self.entries.push(p);
    }

    /// Looks up the value bound to `key`: the value of the last insertion
    /// with that key.
    pub fn get(&self, key: &str) -> (r: Option<&String>)
        ensures
            match r {
                Some(v) => self@.contains_key(key@) && v@ == self@[key@],
                None => !self@.contains_key(key@),
            },
    {
        let n = self.entries.len();
        let mut i: usize = n;
        loop
            invariant
                0 <= i <= n,
                n == self.entries@.len(),
                forall|l: int| i <= l < n ==> self.entries@[l].0@ != key@,
            ensures
                i == 0,
                forall|l: int| 0 <= l < n ==> self.entries@[l].0@ != key@,
            decreases i,
        {
            if i == 0 {
                break;
            }
            if str_eq(self.entries[i - 1].0.as_str(), key) {
                proof {
                    lemma_find_last_at(self.entries@, key@, i - 1);
                    lemma_entries_map_lookup(self.entries@, key@);
                }
                return Some(&self.entries[i - 1].1);
            }
            i -= 1;
        }
        proof {
            lemma_entries_map_dom(self.entries@);
        }
        None
    }

    /// Whether `key` is bound.
    pub fn contains_key(&self, key: &str) -> (r: bool)
        ensures
            r == self@.contains_key(key@),
    {
        match self.get(key) {
            Some(_) => true,
            None => false,
        }
    }

    /// The number of bound keys.
    pub fn len(&self) -> (r: usize)
        ensures
            r == self@.dom().len(),
    {
        let n = self.entries.len();
        let mut i: usize = 0;
        let mut count: usize = 0;
        proof {
            assert(self.entries@.take(0) =~= Seq::<(String, String)>::empty());
            lemma_entries_map_dom(self.entries@.take(0));
            assert(entries_map(self.entries@.take(0)).dom() =~= Set::<Seq<char>>::empty());
        }
        loop
            invariant
                0 <= i <= n,
                n == self.entries@.len(),
                entries_map(self.entries@.take(i as int)).dom().finite(),
                count == entries_map(self.entries@.take(i as int)).dom().len(),
                count <= i,
            ensures
                i == n,
                count == entries_map(self.entries@.take(i as int)).dom().len(),
            decreases n - i,
        {
            if i >= n {
                break;
            }
            let ghost pre = self.entries@.take(i as int);
            let ghost post = self.entries@.take(i as int + 1);
            proof {
                assert(post =~= pre.push(self.entries@[i as int]));
                lemma_entries_map_push(pre, self.entries@[i as int]);
                lemma_entries_map_dom(pre);
                lemma_entries_map_dom(post);
            }
            // `key` is new at position i only if it occurs at no earlier position
            let mut seen = false;
            let mut j: usize = 0;
            loop
                invariant
                    0 <= j <= i < n,
                    n == self.entries@.len(),
                    seen <==> exists|l: int|
                        0 <= l < j && (#[trigger] self.entries@[l].0@)
                            == self.entries@[i as int].0@,
                ensures
                    seen <==> exists|l: int|
                        0 <= l < i && (#[trigger] self.entries@[l].0@)
                            == self.entries@[i as int].0@,
                decreases i - j,
            {
                if seen || j >= i {
                    break;
                }
                if str_eq(self.entries[j].0.as_str(), self.entries[i].0.as_str()) {
                    seen = true;
                }
                j += 1;
            }
            proof {
                let k = self.entries@[i as int].0@;
                if seen {
                    let l = choose|l: int|
                        0 <= l < i && (#[trigger] self.entries@[l].0@) == k;
                    assert(pre[l].0@ == k);
                    assert(entries_map(pre).contains_key(k));
                    assert(entries_map(post).dom() =~= entries_map(pre).dom());
                } else {
                    assert(!entries_map(pre).contains_key(k)) by {
                        if entries_map(pre).contains_key(k) {
                            let l = choose|l: int| 0 <= l < pre.len() && (#[trigger] pre[l].0@) == k;
                            assert(self.entries@[l].0@ == k);
                        }
                    }
                    assert(entries_map(post).dom() =~= entries_map(pre).dom().insert(k));
                }
            }
            if !seen {
                count += 1;
            }
            i += 1;
        }
        proof {
            assert(self.entries@.take(n as int) =~= self.entries@);
        }
        count
    }
}

/// The mathematical content of a parsed command: its kind, its free-text
/// value and its canonical options.
pub struct CommandResultView {
    pub command: Command,
    pub value: Seq<char>,
    pub options: Map<Seq<char>, Seq<char>>,
}

/// The immutable result of analyzing an argument list: the command kind,
/// the free-text value, and the option map.
pub struct CommandResult {
    command: Command,
    value: String,
    options: OptionMap,
}

impl View for CommandResult {
    type V = CommandResultView;

    closed spec fn view(&self) -> CommandResultView {
        CommandResultView { command: self.command, value: self.value@, options: self.options@ }
    }
}

impl CommandResult {
    /// Packs a command kind, a free-text value and an option map.
    pub fn new(command: Command, value: &str, options: OptionMap) -> (r: CommandResult)
        ensures
            r@ == (CommandResultView { command, value: value@, options: options@ }),
    {
        CommandResult { command, value: String::from_str(value), options }
    }

    /// The command kind.
    pub fn get_command(&self) -> (r: Command)
        ensures
            r == self@.command,
    {
        self.command
    }

    /// The free-text value.
    pub fn get_value(&self) -> (r: &str)
        ensures
            r@ == self@.value,
    {
        self.value.as_str()
    }

    /// The option map.
    pub fn get_options(&self) -> (r: &OptionMap)
        ensures
            r@ == self@.options,
    {
        &self.options
    }
}

} // verus!
