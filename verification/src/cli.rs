//! Parsing of interactive command lines of the shape `name:action`
//! into sequence items. Reading the lines, and the JSON-valued
//! actions of the security-access and software-download commands,
//! stay with the driver.

use vstd::prelude::*;
use vstd::string::StrSliceExecFns;
use vstd::string::StringExecFns;

use crate::common::{
    find_char, lemma_find_char_none, spec_find_char, str_eq, str_starts_with,
};
use crate::error::TesterError;
use crate::executor::spec_strip_spaces;
use crate::parameters::{ActionValue, SequenceItem};

verus! {

/// ASCII whitespace, as the command-line reader trims it.
pub open spec fn spec_is_ws(c: char) -> bool {
    c == ' ' || c == '\t' || c == '\n' || c == '\r'
}

/// A string with leading ASCII whitespace removed.
pub open spec fn spec_trim_ws_left(s: Seq<char>) -> Seq<char>
    decreases s.len(),
{
    if s.len() > 0 && spec_is_ws(s[0]) {
        spec_trim_ws_left(s.drop_first())
    } else {
        s
    }
}

/// A string with trailing ASCII whitespace removed.
pub open spec fn spec_trim_ws_right(s: Seq<char>) -> Seq<char>
    decreases s.len(),
{
    if s.len() > 0 && spec_is_ws(s.last()) {
        spec_trim_ws_right(s.drop_last())
    } else {
        s
    }
}

/// A string trimmed of ASCII whitespace on both sides.
pub open spec fn spec_trim_ws(s: Seq<char>) -> Seq<char> {
    spec_trim_ws_right(spec_trim_ws_left(s))
}

proof fn lemma_trim_ws_left_is(s: Seq<char>, i: int)
    requires
        0 <= i <= s.len(),
        forall|j: int| 0 <= j < i ==> spec_is_ws(#[trigger] s[j]),
        i < s.len() ==> !spec_is_ws(s[i]),
    ensures
        spec_trim_ws_left(s) == s.skip(i),
    decreases s.len(),
{
    if s.len() == 0 {
        assert(s.skip(0) =~= s);
    } else if i == 0 {
        assert(s.skip(0) =~= s);
    } else {
        let t = s.drop_first();
        assert(forall|j: int| 0 <= j < i - 1 ==> spec_is_ws(#[trigger] t[j]));
        lemma_trim_ws_left_is(t, i - 1);
        assert(t.skip(i - 1) =~= s.skip(i));
    }
}

proof fn lemma_trim_ws_right_is(s: Seq<char>, k: int)
    requires
        0 <= k <= s.len(),
        forall|j: int| k <= j < s.len() ==> spec_is_ws(#[trigger] s[j]),
        k > 0 ==> !spec_is_ws(s[k - 1]),
    ensures
        spec_trim_ws_right(s) == s.take(k),
    decreases s.len(),
{
    if s.len() == 0 {
        assert(s.take(0) =~= s);
    } else if k == s.len() {
        assert(s.take(k) =~= s);
    } else {
        let t = s.drop_last();
        assert(spec_is_ws(s.last()));
        assert(forall|j: int| k <= j < t.len() ==> spec_is_ws(#[trigger] t[j]));
        lemma_trim_ws_right_is(t, k);
        assert(t.take(k) =~= s.take(k));
    }
}

/// Whether a character is trimmed whitespace.
fn is_ws(c: char) -> (r: bool)
    ensures
        r == spec_is_ws(c),
{
    c == ' ' || c == '\t' || c == '\n' || c == '\r'
}

/// Trims ASCII whitespace from both ends of a substring of `s`.
fn trim_ws_range<'a>(s: &'a str, from: usize, to: usize) -> (r: &'a str)
    requires
        from <= to <= s@.len(),
    ensures
        r@ == spec_trim_ws(s@.subrange(from as int, to as int)),
{
    let ghost w = s@.subrange(from as int, to as int);
    let mut i: usize = from;
    while i < to && is_ws(s.get_char(i))
        invariant
            from <= i <= to <= s@.len(),
            w == s@.subrange(from as int, to as int),
            forall|j: int| 0 <= j < i - from ==> spec_is_ws(#[trigger] w[j]),
        decreases to - i,
    {
        proof {
            assert(w[i - from + 1 - 1] == s@[i as int]);
        }
        i = i + 1;
    }
    proof {
        if i < to {
            assert(w[i - from] == s@[i as int]);
        }
        lemma_trim_ws_left_is(w, i - from);
    }
    let ghost left = w.skip(i as int - from);
    let mut k: usize = to;
    while k > i && is_ws(s.get_char(k - 1))
        invariant
            from <= i <= k <= to,
            to <= s@.len(),
            w == s@.subrange(from as int, to as int),
            forall|j: int| k - from <= j < w.len() ==> spec_is_ws(#[trigger] w[j]),
        decreases k,
    {
        proof {
            assert(w[k - from - 1] == s@[k as int - 1]);
        }
        k = k - 1;
    }
    proof {
        assert(forall|j: int| k - i <= j < left.len() ==> spec_is_ws(#[trigger] left[j]));
        if k > i {
            assert(left[k - i - 1] == w[k - from - 1]);
            assert(w[k - from - 1] == s@[k as int - 1]);
        }
        lemma_trim_ws_right_is(left, k - i as int);
        assert(left.take(k - i as int) =~= s@.subrange(i as int, k as int));
    }
    let r = s.substring_char(i, k);
    proof {
        assert(r@ =~= s@.subrange(i as int, k as int));
    }
    r
}

/// Removes every space from a string.
fn strip_spaces_str(s: &str) -> (r: String)
    ensures
        r@ == spec_strip_spaces(s@),
{
    let ghost v = s@;
    let n = s.unicode_len();
    let mut out = String::new();
    let mut i: usize = 0;
    proof {
        assert(v.take(0) =~= Seq::<char>::empty());
    }
    while i < n
        invariant
            v == s@,
            n == v.len(),
            0 <= i <= n,
            out@ == spec_strip_spaces(v.take(i as int)),
        decreases n - i,
    {
        let c = s.get_char(i);
        proof {
            assert(v.take(i as int + 1).drop_last() =~= v.take(i as int));
            assert(v.take(i as int + 1).last() == v[i as int]);
        }
        if c != ' ' {
            let piece = s.substring_char(i, i + 1);
            proof {
                assert(piece@ =~= seq![v[i as int]]);
            }
            out.append(piece);
            proof {
                assert(spec_strip_spaces(v.take(i as int)) + seq![v[i as int]]
                    =~= spec_strip_spaces(v.take(i as int)).push(v[i as int]));
            }
        }
        i = i + 1;
    }
    proof {
        assert(v.take(n as int) =~= v);
    }
    out
}

/// A parsed command line: either a complete sequence item, or a
/// command whose action is a JSON value the driver must parse.
#[derive(Debug)]
pub enum CliParsed {
    /// A ready item.
    Item(SequenceItem),
    /// A security-access or software-download command: the driver
    /// parses the action text as JSON and builds the item.
    NeedsJson { name: String, action: String },
}

/// The item fields a command line produces beside its name and
/// action.
pub open spec fn spec_cli_item_defaults(item: SequenceItem) -> bool {
    &&& item.description@ =~= "item_description"@
    &&& item.expect.deep_view() =~= seq!["*"@]
    &&& item.timeout@ =~= "10s"@
    &&& item.fail@ =~= Seq::<char>::empty()
}

/// What parsing a command line must produce, case by case over the
/// command's name.
pub open spec fn spec_cli_outcome(input: Seq<char>, r: Result<CliParsed, TesterError>) -> bool {
    match spec_find_char(input, ':') {
        None => r == Err::<CliParsed, TesterError>(TesterError::InvalidInput),
        Some(i) => {
            let name = spec_trim_ws(input.take(i));
            let action = spec_strip_spaces(spec_trim_ws(input.skip(i + 1)));
            if name =~= "socket"@ || name =~= "send_doip"@ {
                r matches Ok(CliParsed::Item(item)) && item.name@ =~= name
                    && (item.action matches ActionValue::One(a) && a@ =~= action)
                    && spec_cli_item_defaults(item)
            } else if name =~= "send_diag"@ {
                r matches Ok(CliParsed::Item(item)) && item.name@ =~= name
                    && (item.action matches ActionValue::Many(v) && v.deep_view() =~= seq![
                    action,
                ]) && spec_cli_item_defaults(item)
            } else if (name.len() >= 15 && name.subrange(0, 15) =~= "securityaccess_"@)
                || name =~= "swdl"@ {
                r matches Ok(CliParsed::NeedsJson { name: n, action: a }) && n@ =~= name && a@
                    =~= action
            } else {
                r matches Ok(CliParsed::Item(item)) && item.name@ =~= name
                    && item.action is Missing && spec_cli_item_defaults(item)
            }
        },
    }
}

/// Parses one interactive command line of the shape `name:action`
/// (see [`spec_cli_outcome`]); a line without a colon is refused.
pub fn parse_cli_input(input: &str) -> (r: Result<CliParsed, TesterError>)
    ensures
        spec_cli_outcome(input@, r),
{
    let n = input.unicode_len();
    let i = match find_char(input, ':') {
        Some(i) => i,
        None => {
            proof {
                lemma_find_char_none(input@, ':');
            }
            return Err(TesterError::InvalidInput);
        },
    };
    proof {
        crate::common::lemma_find_char_from_witness(input@, ':', i as int);
        assert(input@.subrange(0, i as int) =~= input@.take(i as int));
        assert(input@.subrange(i as int + 1, input@.len() as int) =~= input@.skip(i as int + 1));
    }
    let name_str = trim_ws_range(input, 0, i);
    let action_trimmed = trim_ws_range(input, i + 1, n);
    let action = strip_spaces_str(action_trimmed);
    let name = name_str.to_owned();
    proof {
        reveal_strlit("securityaccess_");
    }
    if str_eq(name_str, "socket") || str_eq(name_str, "send_doip") {
        Ok(CliParsed::Item(SequenceItem {
            name,
            description: cli_description(),
            action: ActionValue::One(action),
            expect: cli_expect(),
            timeout: cli_timeout(),
            fail: String::new(),
        }))
    } else if str_eq(name_str, "send_diag") {
        let mut many: Vec<String> = Vec::new();
        many.push(action);
        proof {
            assert(many.deep_view() =~= seq![spec_strip_spaces(spec_trim_ws(input@.skip(
                i as int + 1,
            )))]);
        }
        Ok(CliParsed::Item(SequenceItem {
            name,
            description: cli_description(),
            action: ActionValue::Many(many),
            expect: cli_expect(),
            timeout: cli_timeout(),
            fail: String::new(),
        }))
    } else if str_starts_with(name_str, "securityaccess_") || str_eq(name_str, "swdl") {
        Ok(CliParsed::NeedsJson { name, action })
    } else {
        Ok(CliParsed::Item(SequenceItem {
            name,
            description: cli_description(),
            action: ActionValue::Missing,
            expect: cli_expect(),
            timeout: cli_timeout(),
            fail: String::new(),
        }))
    }
}

/// The fixed description of an interactive item.
fn cli_description() -> (r: String)
    ensures
        r@ =~= "item_description"@,
{
    "item_description".to_owned()
}

/// The fixed expect list of an interactive item: match anything.
fn cli_expect() -> (r: Vec<String>)
    ensures
        r.deep_view() =~= seq!["*"@],
{
    let mut v: Vec<String> = Vec::new();
    v.push("*".to_owned());
    proof {
        assert(v.deep_view() =~= seq!["*"@]);
    }
    v
}

/// The fixed timeout of an interactive item.
fn cli_timeout() -> (r: String)
    ensures
        r@ =~= "10s"@,
{
    "10s".to_owned()
}

} // verus!
