//! The `settings` command: which keys and values it takes and what it shows.
use crate::cli::json_output::JsonSettingEntry;
use crate::clock;
use crate::clock::parse_duration;
use crate::order;
use crate::order::sort_texts;
use crate::settings::AllSettings;
use crate::text;
use crate::text::{
    chars_of, contains_text, copy_opt, join, list_contains, parse_i64, split_on, starts_with,
    text_eq, text_of,
};
use vstd::prelude::*;

verus! {

/// View and modify pitchfork settings
#[derive(Debug)]
pub struct Settings {
    pub command: Option<Commands>,
    /// Output in JSON format
    pub json: bool,
}

/// The subcommands.
#[derive(Debug)]
pub enum Commands {
    /// List all available settings with types and defaults
    List(ListCmd),
    /// Get the current value of a setting
    Show(GetCmd),
    /// Set a setting value in a config file
    Change(SetCmd),
}

/// List all available settings with types and defaults
#[derive(Debug)]
pub struct ListCmd {
    /// Only show settings in a specific group (e.g., "general", "web", "supervisor")
    pub group: Option<String>,
    /// Output in JSON format
    pub json: bool,
}

/// Get the current value of a setting
#[derive(Debug)]
pub struct GetCmd {
    /// Setting key in dot notation (e.g., general.log_level, web.auto_start)
    pub key: String,
    /// Output in JSON format
    pub json: bool,
}

/// Set a setting value in a config file
#[derive(Debug)]
pub struct SetCmd {
    /// Setting key in dot notation (e.g., general.log_level, web.auto_start)
    pub key: String,
    /// Value to set (type must match the setting: string, integer, boolean, or duration)
    pub value: String,
    /// Write to the user-level global config (~/.config/pitchfork/config.toml)
    pub global: bool,
    /// Write to the project-level pitchfork.local.toml (overrides pitchfork.toml)
    pub local: bool,
    /// Write to the project-level pitchfork.toml (default if no flag specified)
    pub project: bool,
}

/// What is known of a setting.
#[derive(Debug)]
pub struct SettingMeta {
    pub key: String,
    /// The name of its type: Bool, Integer, Duration, String or Path.
    pub typ: String,
    pub default_value: Option<String>,
    pub env_var: Option<String>,
    pub description: String,
}

/// The smaller of two numbers.
pub open spec fn lesser(a: nat, b: nat) -> nat {
    if a < b {
        a
    } else {
        b
    }
}

/// The number of characters that must be put in, taken out or replaced to make one text of
/// another.
pub open spec fn edit_distance(a: Seq<char>, b: Seq<char>) -> nat
    decreases a.len() + b.len(),
{
    if a.len() == 0 {
        b.len()
    } else if b.len() == 0 {
        a.len()
    } else {
        let replaced = edit_distance(a.drop_last(), b.drop_last()) + if a.last() == b.last() {
            0nat
        } else {
            1nat
        };
        let removed = edit_distance(a.drop_last(), b) + 1;
        let added = edit_distance(a, b.drop_last()) + 1;
        lesser(lesser(removed, added), replaced)
    }
}

/// The distance is at most the longer of the lengths.
proof fn lemma_distance_bounded(a: Seq<char>, b: Seq<char>)
    ensures
        edit_distance(a, b) <= a.len() || edit_distance(a, b) <= b.len(),
        edit_distance(a, b) <= a.len() + b.len(),
    decreases a.len() + b.len(),
{
    if a.len() > 0 && b.len() > 0 {
        lemma_distance_bounded(a.drop_last(), b.drop_last());
    }
}

/// The distance is the same both ways.
pub proof fn distance_is_symmetric(a: Seq<char>, b: Seq<char>)
    ensures
        edit_distance(a, b) == edit_distance(b, a),
    decreases a.len() + b.len(),
{
    if a.len() > 0 && b.len() > 0 {
        distance_is_symmetric(a.drop_last(), b.drop_last());
        distance_is_symmetric(a.drop_last(), b);
        distance_is_symmetric(a, b.drop_last());
    }
}

/// A text has no distance from itself.
proof fn lemma_no_distance_to_self(a: Seq<char>)
    ensures
        edit_distance(a, a) == 0,
    decreases a.len(),
{
    if a.len() > 0 {
        lemma_no_distance_to_self(a.drop_last());
    }
}

/// Two texts without a distance are the same, and only those.
pub proof fn no_distance_means_equal(a: Seq<char>, b: Seq<char>)
    ensures
        edit_distance(a, b) == 0 <==> a == b,
    decreases a.len() + b.len(),
{
    if a == b {
        lemma_no_distance_to_self(a);
    }
    if edit_distance(a, b) == 0 {
        if a.len() > 0 && b.len() > 0 {
            no_distance_means_equal(a.drop_last(), b.drop_last());
            assert(a =~= a.drop_last().push(a.last()));
            assert(b =~= b.drop_last().push(b.last()));
        } else {
            assert(a =~= b);
        }
    }
}

/// Whether one text becomes another when a character is put in, taken out or replaced at a place.
pub open spec fn is_edit(a: Seq<char>, b: Seq<char>) -> bool {
    ||| exists|i: int, c: char| 0 <= i <= a.len() && b == #[trigger] a.insert(i, c)
    ||| exists|i: int| 0 <= i < a.len() && b == #[trigger] a.remove(i)
    ||| exists|i: int, c: char| 0 <= i < a.len() && b == #[trigger] a.update(i, c)
}

/// Whether texts lead from one to another, each an edit of the one before.
pub open spec fn is_edit_script(script: Seq<Seq<char>>, a: Seq<char>, b: Seq<char>) -> bool {
    &&& script.len() > 0
    &&& script.first() == a
    &&& script.last() == b
    &&& forall|i: int| 0 <= i < script.len() - 1 ==> is_edit(#[trigger] script[i], script[i + 1])
}

/// The distance as it stands for texts that are not empty.
proof fn lemma_distance_step(a: Seq<char>, b: Seq<char>)
    requires
        a.len() > 0,
        b.len() > 0,
    ensures
        edit_distance(a, b) <= edit_distance(a.drop_last(), b) + 1,
        edit_distance(a, b) <= edit_distance(a, b.drop_last()) + 1,
        edit_distance(a, b) <= edit_distance(a.drop_last(), b.drop_last()) + 1,
        a.last() == b.last() ==> edit_distance(a, b) <= edit_distance(a.drop_last(), b.drop_last()),
        ({
            ||| edit_distance(a, b) == edit_distance(a.drop_last(), b) + 1
            ||| edit_distance(a, b) == edit_distance(a, b.drop_last()) + 1
            ||| edit_distance(a, b) == edit_distance(a.drop_last(), b.drop_last()) + if a.last()
                == b.last() {
                0nat
            } else {
                1nat
            }
        }),
{
}

/// A character less at the end, a character more or another one there changes the distance by at
/// most one.
proof fn lemma_edit_at_end(a: Seq<char>, c: Seq<char>, x: char)
    ensures
        edit_distance(a.push(x), c) <= edit_distance(a, c) + 1,
        a.len() > 0 ==> edit_distance(a.drop_last(), c) <= edit_distance(a, c) + 1,
        a.len() > 0 ==> edit_distance(a.drop_last().push(x), c) <= edit_distance(a, c) + 1,
    decreases c.len(),
{
    let more = a.push(x);
    assert(more.drop_last() =~= a);
    if c.len() > 0 {
        lemma_distance_step(more, c);
        lemma_edit_at_end(a, c.drop_last(), x);
        if a.len() > 0 {
            let less = a.drop_last();
            let other = less.push(x);
            assert(other.drop_last() =~= less);
            lemma_distance_step(a, c);
            lemma_distance_step(other, c);
            if less.len() > 0 {
                lemma_distance_step(less, c);
            }
        }
    }
}

/// An edit changes the distance to any text by at most one.
proof fn lemma_edit_distance_grows_by_one(a: Seq<char>, b: Seq<char>, c: Seq<char>)
    requires
        is_edit(a, b),
    ensures
        edit_distance(b, c) <= edit_distance(a, c) + 1,
    decreases a.len() + c.len(),
{
    if a.len() == 0 {
        let (i, x) = choose|i: int, x: char| 0 <= i <= a.len() && b == #[trigger] a.insert(i, x);
        assert(b =~= a.push(x));
        lemma_edit_at_end(a, c, x);
    } else if exists|x: char| b == #[trigger] a.push(x) {
        let x = choose|x: char| b == #[trigger] a.push(x);
        lemma_edit_at_end(a, c, x);
    } else if b == a.drop_last() {
        lemma_edit_at_end(a, c, ' ');
    } else if exists|x: char| b == #[trigger] a.drop_last().push(x) {
        let x = choose|x: char| b == #[trigger] a.drop_last().push(x);
        lemma_edit_at_end(a, c, x);
    } else {
        lemma_inner_edit(a, b);
        if c.len() > 0 {
            lemma_distance_step(a, c);
            lemma_distance_step(b, c);
            lemma_edit_distance_grows_by_one(a.drop_last(), b.drop_last(), c);
            lemma_edit_distance_grows_by_one(a.drop_last(), b.drop_last(), c.drop_last());
            lemma_edit_distance_grows_by_one(a, b, c.drop_last());
        }
    }
}

/// An edit that is not at the end leaves the last character.
proof fn lemma_inner_edit(a: Seq<char>, b: Seq<char>)
    requires
        is_edit(a, b),
        a.len() > 0,
        forall|x: char| b != #[trigger] a.push(x),
        b != a.drop_last(),
        forall|x: char| b != #[trigger] a.drop_last().push(x),
    ensures
        b.len() > 0,
        b.last() == a.last(),
        is_edit(a.drop_last(), b.drop_last()),
        b.len() <= a.len() + 1,
{
    let less = a.drop_last();
    if exists|i: int, x: char| 0 <= i <= a.len() && b == #[trigger] a.insert(i, x) {
        let (i, x) = choose|i: int, x: char| 0 <= i <= a.len() && b == #[trigger] a.insert(i, x);
        if i == a.len() {
            assert(b =~= a.push(x));
        }
        assert(b.drop_last() =~= less.insert(i, x));
    } else if exists|i: int| 0 <= i < a.len() && b == #[trigger] a.remove(i) {
        let i = choose|i: int| 0 <= i < a.len() && b == #[trigger] a.remove(i);
        if i == a.len() - 1 {
            assert(b =~= a.drop_last());
        }
        assert(b.drop_last() =~= less.remove(i));
    } else {
        let (i, x) = choose|i: int, x: char| 0 <= i < a.len() && b == #[trigger] a.update(i, x);
        if i == a.len() - 1 {
            assert(b =~= a.drop_last().push(x));
        }
        assert(b.drop_last() =~= less.update(i, x));
    }
}

/// An edit can be undone by one.
proof fn lemma_edit_is_undone(a: Seq<char>, b: Seq<char>)
    requires
        is_edit(a, b),
    ensures
        is_edit(b, a),
{
    if exists|i: int, x: char| 0 <= i <= a.len() && b == #[trigger] a.insert(i, x) {
        let (i, x) = choose|i: int, x: char| 0 <= i <= a.len() && b == #[trigger] a.insert(i, x);
        assert(a =~= b.remove(i));
    } else if exists|i: int| 0 <= i < a.len() && b == #[trigger] a.remove(i) {
        let i = choose|i: int| 0 <= i < a.len() && b == #[trigger] a.remove(i);
        assert(a =~= b.insert(i, a[i]));
    } else {
        let (i, x) = choose|i: int, x: char| 0 <= i < a.len() && b == #[trigger] a.update(i, x);
        assert(a =~= b.update(i, a[i]));
    }
}

/// No edit script is shorter than the distance.
proof fn lemma_scripts_are_long(script: Seq<Seq<char>>, a: Seq<char>, b: Seq<char>)
    requires
        is_edit_script(script, a, b),
    ensures
        edit_distance(a, b) <= script.len() - 1,
    decreases script.len(),
{
    if script.len() == 1 {
        lemma_no_distance_to_self(a);
    } else {
        let rest = script.drop_first();
        assert(is_edit(script[0], script[1]));
        assert forall|i: int| 0 <= i < rest.len() - 1 implies is_edit(
            #[trigger] rest[i],
            rest[i + 1],
        ) by {
            assert(is_edit(script[i + 1], script[i + 2]));
        }
        lemma_scripts_are_long(rest, script[1], b);
        lemma_edit_is_undone(script[0], script[1]);
        lemma_edit_distance_grows_by_one(script[1], a, b);
    }
}

/// The edits of a script can be made in front of a character that stays.
proof fn lemma_script_with_end(script: Seq<Seq<char>>, a: Seq<char>, b: Seq<char>, x: char)
    requires
        is_edit_script(script, a, b),
    ensures
        is_edit_script(
            script.map_values(|s: Seq<char>| s.push(x)),
            a.push(x),
            b.push(x),
        ),
{
    let longer = script.map_values(|s: Seq<char>| s.push(x));
    assert forall|i: int| 0 <= i < longer.len() - 1 implies is_edit(
        #[trigger] longer[i],
        longer[i + 1],
    ) by {
        let s = script[i];
        let t = script[i + 1];
        assert(is_edit(s, t));
        if exists|k: int, c: char| 0 <= k <= s.len() && t == #[trigger] s.insert(k, c) {
            let (k, c) = choose|k: int, c: char|
                0 <= k <= s.len() && t == #[trigger] s.insert(k, c);
            assert(t.push(x) =~= s.push(x).insert(k, c));
        } else if exists|k: int| 0 <= k < s.len() && t == #[trigger] s.remove(k) {
            let k = choose|k: int| 0 <= k < s.len() && t == #[trigger] s.remove(k);
            assert(t.push(x) =~= s.push(x).remove(k));
        } else {
            let (k, c) = choose|k: int, c: char|
                0 <= k < s.len() && t == #[trigger] s.update(k, c);
            assert(t.push(x) =~= s.push(x).update(k, c));
        }
    }
}

/// A script with an edit in front.
proof fn lemma_edit_in_front(script: Seq<Seq<char>>, a: Seq<char>, b: Seq<char>, c: Seq<char>)
    requires
        is_edit(a, b),
        is_edit_script(script, b, c),
    ensures
        is_edit_script(seq![a] + script, a, c),
{
    let longer = seq![a] + script;
    assert(longer.last() == script.last());
    assert forall|i: int| 0 <= i < longer.len() - 1 implies is_edit(
        #[trigger] longer[i],
        longer[i + 1],
    ) by {
        if i > 0 {
            assert(is_edit(script[i - 1], script[i]));
        } else {
            assert(longer[1] == script[0]);
        }
    }
}

/// A script with an edit behind.
proof fn lemma_edit_behind(script: Seq<Seq<char>>, a: Seq<char>, b: Seq<char>, c: Seq<char>)
    requires
        is_edit_script(script, a, b),
        is_edit(b, c),
    ensures
        is_edit_script(script.push(c), a, c),
{
    let longer = script.push(c);
    assert forall|i: int| 0 <= i < longer.len() - 1 implies is_edit(
        #[trigger] longer[i],
        longer[i + 1],
    ) by {
        if i < script.len() - 1 {
            assert(is_edit(script[i], script[i + 1]));
        }
    }
}

/// There is an edit script as long as the distance.
proof fn lemma_script_of_distance(a: Seq<char>, b: Seq<char>) -> (script: Seq<Seq<char>>)
    ensures
        is_edit_script(script, a, b),
        script.len() == edit_distance(a, b) + 1,
    decreases a.len() + b.len(),
{
    if a.len() == 0 && b.len() == 0 {
        assert(a =~= b);
        seq![a]
    } else if a.len() == 0 {
        let less = b.drop_last();
        let script = lemma_script_of_distance(a, less);
        assert(b =~= less.insert(less.len() as int, b.last()));
        lemma_edit_behind(script, a, less, b);
        script.push(b)
    } else if b.len() == 0 {
        let less = a.drop_last();
        let script = lemma_script_of_distance(less, b);
        assert(less =~= a.remove(a.len() - 1));
        lemma_edit_in_front(script, a, less, b);
        seq![a] + script
    } else {
        lemma_distance_step(a, b);
        let x = a.drop_last();
        let y = b.drop_last();
        if edit_distance(a, b) == edit_distance(x, b) + 1 {
            let script = lemma_script_of_distance(x, b);
            assert(x =~= a.remove(a.len() - 1));
            lemma_edit_in_front(script, a, x, b);
            seq![a] + script
        } else if edit_distance(a, b) == edit_distance(a, y) + 1 {
            let script = lemma_script_of_distance(a, y);
            assert(b =~= y.insert(y.len() as int, b.last()));
            lemma_edit_behind(script, a, y, b);
            script.push(b)
        } else {
            let script = lemma_script_of_distance(x, y);
            lemma_script_with_end(script, x, y, b.last());
            let longer = script.map_values(|s: Seq<char>| s.push(b.last()));
            assert(y.push(b.last()) =~= b);
            if a.last() == b.last() {
                assert(x.push(b.last()) =~= a);
                longer
            } else {
                assert(x.push(b.last()) =~= a.update(a.len() - 1, b.last()));
                lemma_edit_in_front(longer, a, x.push(b.last()), b);
                seq![a] + longer
            }
        }
    }
}

/// The distance of two texts is the smallest number of edits that make one of the other: some
/// script has as many, and none has fewer.
pub proof fn distance_is_the_fewest_edits(a: Seq<char>, b: Seq<char>)
    ensures
        exists|script: Seq<Seq<char>>| #[trigger]
            is_edit_script(script, a, b) && script.len() - 1 == edit_distance(a, b),
        forall|script: Seq<Seq<char>>| #[trigger]
            is_edit_script(script, a, b) ==> script.len() - 1 >= edit_distance(a, b),
{
    let script = lemma_script_of_distance(a, b);
    assert(is_edit_script(script, a, b));
    assert forall|script: Seq<Seq<char>>| #[trigger] is_edit_script(script, a, b) implies script.len()
        - 1 >= edit_distance(a, b) by {
        lemma_scripts_are_long(script, a, b);
    }
}

/// The number of characters that must be put in, taken out or replaced to make one text of
/// another.
///
/// For each beginning of `a` a row holds the distances of the beginnings of `b` from it.
pub fn levenshtein_distance(a: &str, b: &str) -> (r: usize)
    ensures
        r == edit_distance(a@, b@),
{
    let x = chars_of(a);
    let y = chars_of(b);
    let mut row: Vec<usize> = Vec::new();
    let mut j: usize = 0;
    assert(x@.take(0) =~= Seq::<char>::empty());
    while j < y.len()
        invariant
            y@ == b@,
            j <= y@.len(),
            row@.len() == j,
            x@.take(0) == Seq::<char>::empty(),
            forall|k: int|
                0 <= k < j ==> #[trigger] row@[k] == edit_distance(x@.take(0), y@.take(k + 1)),
        decreases y@.len() - j,
    {
        row.push(j + 1);
        j = j + 1;
    }
    let mut i: usize = 0;
    while i < x.len()
        invariant
            x@ == a@,
            y@ == b@,
            i <= x@.len(),
            row@.len() == y@.len(),
            forall|k: int|
                0 <= k < row@.len() ==> #[trigger] row@[k] == edit_distance(
                    x@.take(i as int),
                    y@.take(k + 1),
                ),
        decreases x@.len() - i,
    {
        let ghost above = x@.take(i as int);
        let ghost here = x@.take(i + 1);
        assert(here.drop_last() =~= above);
        assert(y@.take(0) =~= Seq::<char>::empty());
        let mut next: Vec<usize> = Vec::new();
        let mut diagonal: usize = i;
        let mut left: usize = i + 1;
        let mut k: usize = 0;
        while k < y.len()
            invariant
                x@ == a@,
                y@ == b@,
                i < x@.len(),
                above == x@.take(i as int),
                here == x@.take(i + 1),
                here.drop_last() == above,
                k <= y@.len(),
                row@.len() == y@.len(),
                next@.len() == k,
                diagonal == edit_distance(above, y@.take(k as int)),
                left == edit_distance(here, y@.take(k as int)),
                forall|m: int|
                    0 <= m < row@.len() ==> #[trigger] row@[m] == edit_distance(
                        above,
                        y@.take(m + 1),
                    ),
                forall|m: int|
                    0 <= m < k ==> #[trigger] next@[m] == edit_distance(here, y@.take(m + 1)),
            decreases y@.len() - k,
        {
            proof {
                let at = y@.take(k + 1);
                assert(at.drop_last() =~= y@.take(k as int));
                assert(at.last() == y@[k as int]);
                assert(here.last() == x@[i as int]);
                lemma_distance_bounded(here, at);
            }
            let cost: u128 = if x[i] == y[k] {
                0
            } else {
                1
            };
            let removed: u128 = row[k] as u128 + 1;
            let added: u128 = left as u128 + 1;
            let replaced: u128 = diagonal as u128 + cost;
            let mut best: u128 = removed;
            if added < best {
                best = added;
            }
            if replaced < best {
                best = replaced;
            }
            assert(best == edit_distance(here, y@.take(k + 1)));
            assert(best <= x.len() || best <= y.len());
            diagonal = row[k];
            left = best as usize;
            next.push(left);
            k = k + 1;
        }
        row = next;
        i = i + 1;
    }
    assert(x@.take(i as int) =~= a@);
    assert(y@.take(y@.len() as int) =~= b@);
    if y.len() == 0 {
        x.len()
    } else {
        row[y.len() - 1]
    }
}

/// The largest distance of a key that is suggested.
pub const CLOSE: usize = 3;

/// Whether a key is suggested for another one: it is close to it or holds it.
pub open spec fn is_close(key: Seq<char>, known: Seq<char>) -> bool {
    edit_distance(key, known) <= CLOSE || text::occurs_in(key, known)
}

/// The keys of settings.
pub open spec fn meta_keys(meta: Seq<SettingMeta>) -> Seq<Seq<char>> {
    meta.map_values(|m: SettingMeta| m.key@)
}

/// The keys that are suggested for another one.
pub open spec fn close_keys(key: Seq<char>, keys: Seq<Seq<char>>) -> Seq<Seq<char>>
    decreases keys.len(),
{
    if keys.len() == 0 {
        Seq::empty()
    } else if is_close(key, keys.last()) {
        close_keys(key, keys.drop_last()).push(keys.last())
    } else {
        close_keys(key, keys.drop_last())
    }
}

/// The message about an unknown key, with sorted suggestions.
pub open spec fn unknown_key(key: Seq<char>, suggestions: Seq<Seq<char>>) -> Seq<char> {
    if suggestions.len() == 0 {
        "unknown setting '"@ + key
            + "'. Run 'pitchfork settings list' to see all available settings"@
    } else {
        "unknown setting '"@ + key + "'. Did you mean one of: "@ + text::joined(
            suggestions,
            ", "@,
        ) + "?"@
    }
}

/// Whether a list is another one in ascending order.
pub open spec fn sorted_of(sorted: Seq<Seq<char>>, list: Seq<Seq<char>>) -> bool {
    order::ascending(sorted) && sorted.to_multiset() == list.to_multiset()
}

/// Looks for a key among settings.
fn find_meta(meta: &Vec<SettingMeta>, key: &str) -> (r: Option<usize>)
    ensures
        match r {
            Some(at) => at < meta@.len() && meta@[at as int].key@ == key@ && forall|k: int|
                0 <= k < at ==> (#[trigger] meta@[k]).key@ != key@,
            None => !meta_keys(meta@).contains(key@),
        },
{
    let mut i: usize = 0;
    while i < meta.len()
        invariant
            i <= meta@.len(),
            forall|k: int| 0 <= k < i ==> (#[trigger] meta@[k]).key@ != key@,
        decreases meta@.len() - i,
    {
        if text_eq(meta[i].key.as_str(), key) {
            return Some(i);
        }
        i = i + 1;
    }
    assert forall|k: int| 0 <= k < meta@.len() implies #[trigger] meta_keys(meta@)[k] != key@ by {
        assert(meta@[k].key@ != key@);
    }
    None
}

/// The message about an unknown key, with the keys that are close.
fn unknown_key_message(key: &str, meta: &Vec<SettingMeta>) -> (r: String)
    ensures
        exists|s: Seq<Seq<char>>| #[trigger]
            sorted_of(s, close_keys(key@, meta_keys(meta@))) && r@ == unknown_key(key@, s),
{
    let ghost keys = meta_keys(meta@);
    let mut close: Vec<String> = Vec::new();
    let mut i: usize = 0;
    assert(text::texts(close@) =~= close_keys(key@, keys.take(0)));
    while i < meta.len()
        invariant
            i <= meta@.len(),
            keys == meta_keys(meta@),
            text::texts(close@) == close_keys(key@, keys.take(i as int)),
        decreases meta@.len() - i,
    {
        let ghost before = text::texts(close@);
        let known = meta[i].key.as_str();
        assert(keys.take(i + 1).drop_last() =~= keys.take(i as int));
        assert(keys.take(i + 1).last() == known@);
        if levenshtein_distance(key, known) <= CLOSE || contains_text(known, key) {
            close.push(meta[i].key.clone());
            assert(text::texts(close@) =~= before.push(known@));
        }
        i = i + 1;
    }
    assert(keys.take(i as int) =~= keys);
    let ghost found = text::texts(close@);
    let sorted = sort_texts(close);
    assert(sorted_of(text::texts(sorted@), found));
    if sorted.len() == 0 {
        "unknown setting '".to_string().concat(key).concat(
            "'. Run 'pitchfork settings list' to see all available settings",
        )
    } else {
        "unknown setting '".to_string().concat(key).concat("'. Did you mean one of: ").concat(
            join(&sorted, ", ").as_str(),
        ).concat("?")
    }
}

/// Checks that there is a setting; the error suggests keys that are close.
pub fn validate_setting_key(key: &str, meta: &Vec<SettingMeta>) -> (r: Result<(), String>)
    ensures
        match r {
            Ok(_) => meta_keys(meta@).contains(key@),
            Err(e) => !meta_keys(meta@).contains(key@) && exists|s: Seq<Seq<char>>| #[trigger]
                sorted_of(s, close_keys(key@, meta_keys(meta@))) && e@ == unknown_key(key@, s),
        },
{
    match find_meta(meta, key) {
        Some(at) => {
            assert(meta_keys(meta@)[at as int] == key@);
            Ok(())
        },
        None => Err(unknown_key_message(key, meta)),
    }
}

/// The names of the log levels.
pub open spec fn log_levels() -> Seq<Seq<char>> {
    seq!["trace"@, "debug"@, "info"@, "warn"@, "error"@]
}

fn log_level_list() -> (r: Vec<String>)
    ensures
        text::texts(r@) == log_levels(),
{
    let mut out: Vec<String> = Vec::new();
    out.push("trace".to_string());
    out.push("debug".to_string());
    out.push("info".to_string());
    out.push("warn".to_string());
    out.push("error".to_string());
    assert(text::texts(out@) =~= log_levels());
    out
}

/// What is wrong with a value for a setting of a type, where something is.
pub open spec fn value_fault(key: Seq<char>, value: Seq<char>, typ: Seq<char>) -> Option<Seq<char>> {
    if typ == "Bool"@ && value != "true"@ && value != "false"@ {
        Some(
            "invalid boolean value '"@ + value + "' for '"@ + key
                + "'. Expected 'true' or 'false'"@,
        )
    } else if typ == "Integer"@ && text::parsed_i64(value) is None {
        Some("invalid integer value '"@ + value + "' for '"@ + key + "'. Expected a number"@)
    } else if typ == "Duration"@ && clock::duration_of(value) is None {
        Some(
            "invalid duration value '"@ + value + "' for '"@ + key
                + "'. Expected a duration like '10s', '5m', '1h', '500ms'"@,
        )
    } else if (typ == "String"@ || typ == "Path"@) && (key == "general.log_level"@ || key
        == "general.log_file_level"@) && !log_levels().contains(value) {
        Some(
            "invalid log level '"@ + value + "' for '"@ + key + "'. Expected one of: "@
                + text::joined(log_levels(), ", "@),
        )
    } else {
        None
    }
}

/// Checks a value for a setting of a type.
pub fn validate_setting_value(key: &str, value: &str, typ: &str) -> (r: Result<(), String>)
    ensures
        match r {
            Ok(_) => value_fault(key@, value@, typ@) is None,
            Err(e) => value_fault(key@, value@, typ@) == Some(e@),
        },
{
    if text_eq(typ, "Bool") && !text_eq(value, "true") && !text_eq(value, "false") {
        return Err(
            "invalid boolean value '".to_string().concat(value).concat("' for '").concat(
                key,
            ).concat("'. Expected 'true' or 'false'"),
        );
    }
    if text_eq(typ, "Integer") && parse_i64(value).is_none() {
        return Err(
            "invalid integer value '".to_string().concat(value).concat("' for '").concat(
                key,
            ).concat("'. Expected a number"),
        );
    }
    if text_eq(typ, "Duration") && parse_duration(value).is_none() {
        return Err(
            "invalid duration value '".to_string().concat(value).concat("' for '").concat(
                key,
            ).concat("'. Expected a duration like '10s', '5m', '1h', '500ms'"),
        );
    }
    if text_eq(typ, "String") || text_eq(typ, "Path") {
        let levels = log_level_list();
        if (text_eq(key, "general.log_level") || text_eq(key, "general.log_file_level"))
            && !list_contains(&levels, value) {
            return Err(
                "invalid log level '".to_string().concat(value).concat("' for '").concat(
                    key,
                ).concat("'. Expected one of: ").concat(join(&levels, ", ").as_str()),
            );
        }
    }
    Ok(())
}

impl SetCmd {
    /// Checks the key and then the value.
    pub fn validate(&self, meta: &Vec<SettingMeta>) -> (r: Result<(), String>)
        ensures
            match r {
                Ok(_) => exists|at: int|
                    #![trigger meta@[at]]
                    0 <= at < meta@.len() && meta@[at].key@ == self.key@ && value_fault(
                        self.key@,
                        self.value@,
                        meta@[at].typ@,
                    ) is None,
                Err(e) => if meta_keys(meta@).contains(self.key@) {
                    exists|at: int|
                        #![trigger meta@[at]]
                        0 <= at < meta@.len() && meta@[at].key@ == self.key@ && value_fault(
                            self.key@,
                            self.value@,
                            meta@[at].typ@,
                        ) == Some(e@)
                } else {
                    exists|s: Seq<Seq<char>>| #[trigger]
                        sorted_of(s, close_keys(self.key@, meta_keys(meta@))) && e@
                            == unknown_key(self.key@, s)
                },
            },
    {
        match find_meta(meta, self.key.as_str()) {
            Some(at) => {
                assert(meta_keys(meta@)[at as int] == self.key@);
                validate_setting_value(
                    self.key.as_str(),
                    self.value.as_str(),
                    meta[at].typ.as_str(),
                )
            },
            None => Err(unknown_key_message(self.key.as_str(), meta)),
        }
    }

    /// Where the value is written.
    pub fn target(&self) -> (r: Result<SettingTarget, String>)
        ensures
            match r {
                Ok(t) => t == if self.global {
                    SettingTarget::Global
                } else {
                    SettingTarget::Project { local: self.local, project: self.project }
                } && !(self.global && (self.local || self.project)),
                Err(e) => self.global && (self.local || self.project) && e@
                    == "cannot combine --global with --local or --project"@,
            },
    {
        if self.global && (self.local || self.project) {
            return Err("cannot combine --global with --local or --project".to_string());
        }
        if self.global {
            Ok(SettingTarget::Global)
        } else {
            Ok(SettingTarget::Project { local: self.local, project: self.project })
        }
    }

    /// What is said when the value is written.
    pub fn report(&self, path: &str) -> (r: String)
        ensures
            r@ == "set "@ + self.key@ + " = "@ + self.value@ + " in "@ + path@,
    {
        "set ".to_string().concat(self.key.as_str()).concat(" = ").concat(
            self.value.as_str(),
        ).concat(" in ").concat(path)
    }
}

/// Where a setting is written.
#[derive(Debug, Clone, Copy, PartialEq, Eq, Structural)]
pub enum SettingTarget {
    /// The config of the user.
    Global,
    /// The config of the project.
    Project { local: bool, project: bool },
}

/// Whether a list of one group shows a key.
pub open spec fn in_group(key: Seq<char>, group: Option<Seq<char>>) -> bool {
    match group {
        Some(g) => (g + "."@).is_prefix_of(key) || key == g,
        None => true,
    }
}

/// The first line of a text, without its end.
pub open spec fn first_line(s: Seq<char>) -> Seq<char> {
    let line = text::split(s, '\n')[0];
    if line.len() > 0 && line.last() == '\r' && text::split(s, '\n').len() > 1 {
        line.drop_last()
    } else {
        line
    }
}

fn first_line_of(s: &str) -> (r: String)
    ensures
        r@ == first_line(s@),
{
    proof {
        text::lemma_split_nonempty(s@, '\n');
    }
    let parts = split_on(s, '\n');
    assert(text::texts(parts@).len() == parts@.len());
    assert(text::texts(parts@)[0] == parts@[0]@);
    let line = chars_of(parts[0].as_str());
    let n: usize = line.len();
    if parts.len() > 1 && n > 0 && line[n - 1] == '\r' {
        let r = text_of(&line, 0, n - 1);
        assert(r@ =~= line@.drop_last());
        r
    } else {
        parts[0].clone()
    }
}

/// The lines about a setting in the list of all settings.
pub open spec fn list_lines(m: SettingMeta) -> Seq<Seq<char>> {
    let head = m.key@ + " ("@ + m.typ@ + ") default="@ + (match m.default_value {
        Some(d) => d@,
        None => "(none)"@,
    }) + (match m.env_var {
        Some(e) => " ["@ + e@ + "]"@,
        None => ""@,
    });
    if m.description@.len() > 0 {
        seq![head, "  "@ + first_line(m.description@)]
    } else {
        seq![head]
    }
}

/// The lines about the settings that a list shows.
pub open spec fn all_list_lines(meta: Seq<SettingMeta>, group: Option<Seq<char>>) -> Seq<Seq<char>>
    decreases meta.len(),
{
    if meta.len() == 0 {
        Seq::empty()
    } else {
        all_list_lines(meta.drop_last(), group) + if in_group(meta.last().key@, group) {
            list_lines(meta.last())
        } else {
            Seq::empty()
        }
    }
}

/// An entry about a setting.
pub open spec fn describes(e: JsonSettingEntry, m: SettingMeta, s: AllSettings) -> bool {
    &&& e.key@ == m.key@
    &&& e.value@ == s.shown(m.key@)
    &&& text::opt_text(e.default) == text::opt_text(m.default_value)
    &&& text::opt_text(e.kind) == Some(m.typ@)
    &&& text::opt_text(e.env_var) == text::opt_text(m.env_var)
}

fn json_entry(m: &SettingMeta, s: &AllSettings) -> (r: JsonSettingEntry)
    ensures
        describes(r, *m, *s),
{
    JsonSettingEntry {
        key: m.key.clone(),
        value: s.get_setting_value(m.key.as_str()),
        default: copy_opt(&m.default_value),
        kind: Some(m.typ.clone()),
        env_var: copy_opt(&m.env_var),
    }
}

/// The settings that a list shows.
pub open spec fn listed(meta: Seq<SettingMeta>, group: Option<Seq<char>>) -> Seq<SettingMeta>
    decreases meta.len(),
{
    if meta.len() == 0 {
        Seq::empty()
    } else if in_group(meta.last().key@, group) {
        listed(meta.drop_last(), group).push(meta.last())
    } else {
        listed(meta.drop_last(), group)
    }
}

/// Whether entries describe settings, one each.
pub open spec fn all_described(
    entries: Seq<JsonSettingEntry>,
    meta: Seq<SettingMeta>,
    s: AllSettings,
) -> bool {
    entries.len() == meta.len() && forall|i: int|
        0 <= i < entries.len() ==> describes(#[trigger] entries[i], meta[i], s)
}

fn shows_key(key: &str, group: &Option<String>) -> (r: bool)
    ensures
        r == in_group(key@, text::opt_text(*group)),
{
    match group {
        Some(g) => {
            let prefix = g.clone().concat(".");
            starts_with(key, prefix.as_str()) || text_eq(key, g.as_str())
        },
        None => true,
    }
}

/// The JSON entries of the settings of a group, or of all.
fn json_of(meta: &Vec<SettingMeta>, group: &Option<String>, s: &AllSettings) -> (r: Vec<
    JsonSettingEntry,
>)
    ensures
        all_described(r@, listed(meta@, text::opt_text(*group)), *s),
{
    let mut out: Vec<JsonSettingEntry> = Vec::new();
    let ghost g = text::opt_text(*group);
    let mut i: usize = 0;
    assert(listed(meta@.take(0), g) =~= Seq::<SettingMeta>::empty());
    while i < meta.len()
        invariant
            i <= meta@.len(),
            g == text::opt_text(*group),
            all_described(out@, listed(meta@.take(i as int), g), *s),
        decreases meta@.len() - i,
    {
        assert(meta@.take(i + 1).drop_last() =~= meta@.take(i as int));
        assert(meta@.take(i + 1).last() == meta@[i as int]);
        if shows_key(meta[i].key.as_str(), group) {
            out.push(json_entry(&meta[i], s));
        }
        i = i + 1;
    }
    assert(meta@.take(i as int) =~= meta@);
    out
}

fn push_list_lines(out: &mut Vec<String>, m: &SettingMeta)
    ensures
        text::texts(final(out)@) == text::texts(old(out)@) + list_lines(*m),
{
    let ghost before = text::texts(out@);
    let default = match &m.default_value {
        Some(d) => d.as_str(),
        None => "(none)",
    };
    let env_hint = match &m.env_var {
        Some(e) => " [".to_string().concat(e.as_str()).concat("]"),
        None => "".to_string(),
    };
    out.push(
        m.key.clone().concat(" (").concat(m.typ.as_str()).concat(") default=").concat(
            default,
        ).concat(env_hint.as_str()),
    );
    if !m.description.as_str().is_empty() {
        out.push("  ".to_string().concat(first_line_of(m.description.as_str()).as_str()));
    }
    assert(text::texts(out@) =~= before + list_lines(*m));
}

impl ListCmd {
    /// The lines of the list.
    pub fn lines(&self, meta: &Vec<SettingMeta>) -> (r: Vec<String>)
        ensures
            text::texts(r@) == all_list_lines(meta@, text::opt_text(self.group)),
    {
        let mut out: Vec<String> = Vec::new();
        let ghost g = text::opt_text(self.group);
        let mut i: usize = 0;
        assert(text::texts(out@) =~= all_list_lines(meta@.take(0), g));
        while i < meta.len()
            invariant
                i <= meta@.len(),
                g == text::opt_text(self.group),
                text::texts(out@) == all_list_lines(meta@.take(i as int), g),
            decreases meta@.len() - i,
        {
            let ghost before = text::texts(out@);
            assert(meta@.take(i + 1).drop_last() =~= meta@.take(i as int));
            assert(meta@.take(i + 1).last() == meta@[i as int]);
            assert(before + Seq::<Seq<char>>::empty() =~= before);
            if shows_key(meta[i].key.as_str(), &self.group) {
                push_list_lines(&mut out, &meta[i]);
            }
            i = i + 1;
        }
        assert(meta@.take(i as int) =~= meta@);
        out
    }

    /// The JSON entries of the list.
    pub fn entries(&self, meta: &Vec<SettingMeta>, s: &AllSettings) -> (r: Vec<JsonSettingEntry>)
        ensures
            all_described(r@, listed(meta@, text::opt_text(self.group)), *s),
    {
        json_of(meta, &self.group, s)
    }
}

impl GetCmd {
    /// The entry of the setting; an error where there is no such setting.
    pub fn entry(&self, meta: &Vec<SettingMeta>, s: &AllSettings) -> (r: Result<
        JsonSettingEntry,
        String,
    >)
        ensures
            match r {
                Ok(e) => exists|at: int|
                    #![trigger meta@[at]]
                    0 <= at < meta@.len() && meta@[at].key@ == self.key@ && describes(
                        e,
                        meta@[at],
                        *s,
                    ),
                Err(e) => !meta_keys(meta@).contains(self.key@) && exists|l: Seq<Seq<char>>|
                    #[trigger]
                    sorted_of(l, close_keys(self.key@, meta_keys(meta@))) && e@ == unknown_key(
                        self.key@,
                        l,
                    ),
            },
    {
        match find_meta(meta, self.key.as_str()) {
            Some(at) => Ok(json_entry(&meta[at], s)),
            None => Err(unknown_key_message(self.key.as_str(), meta)),
        }
    }
}

/// The group of a key: what stands before its first dot.
pub open spec fn group_of(key: Seq<char>) -> Seq<char> {
    text::split(key, '.')[0]
}

/// The field of a key: what stands between its first and its second dot, or the key where it has
/// no dot.
pub open spec fn field_of(key: Seq<char>) -> Seq<char> {
    if text::split(key, '.').len() > 1 {
        text::split(key, '.')[1]
    } else {
        key
    }
}

/// The line about a setting among all: one that has its default value is a comment.
pub open spec fn value_line(m: SettingMeta, s: AllSettings) -> Seq<char> {
    let current = s.shown(m.key@);
    let default = match m.default_value {
        Some(d) => d@,
        None => ""@,
    };
    if current == default {
        if current.len() == 0 {
            "# "@ + field_of(m.key@) + "  (default: empty)"@
        } else {
            "# "@ + field_of(m.key@) + " = "@ + current + "  (default)"@
        }
    } else {
        field_of(m.key@) + " = "@ + current
    }
}

/// The group that stands last in the lines about settings.
pub open spec fn last_group(meta: Seq<SettingMeta>) -> Seq<char> {
    if meta.len() == 0 {
        Seq::empty()
    } else {
        group_of(meta.last().key@)
    }
}

/// The lines before a setting: those of a new group, with an empty line between two groups.
pub open spec fn group_lines(before: Seq<char>, group: Seq<char>) -> Seq<Seq<char>> {
    if group == before {
        Seq::empty()
    } else if before.len() > 0 {
        seq![""@, "[settings."@ + group + "]"@]
    } else {
        seq!["[settings."@ + group + "]"@]
    }
}

/// The lines about all settings, group by group.
pub open spec fn show_lines(meta: Seq<SettingMeta>, s: AllSettings) -> Seq<Seq<char>>
    decreases meta.len(),
{
    if meta.len() == 0 {
        Seq::empty()
    } else {
        let before = meta.drop_last();
        show_lines(before, s) + group_lines(last_group(before), group_of(meta.last().key@)) + seq![
            value_line(meta.last(), s),
        ]
    }
}

fn write_value_line(m: &SettingMeta, s: &AllSettings) -> (r: String)
    ensures
        r@ == value_line(*m, *s),
{
    let parts = split_on(m.key.as_str(), '.');
    assert(text::texts(parts@).len() == parts@.len());
    let field = if parts.len() > 1 {
        assert(text::texts(parts@)[1] == parts@[1]@);
        parts[1].as_str()
    } else {
        m.key.as_str()
    };
    let current = s.get_setting_value(m.key.as_str());
    let default = match &m.default_value {
        Some(d) => d.as_str(),
        None => "",
    };
    if text_eq(current.as_str(), default) {
        if current.as_str().is_empty() {
            "# ".to_string().concat(field).concat("  (default: empty)")
        } else {
            "# ".to_string().concat(field).concat(" = ").concat(current.as_str()).concat(
                "  (default)",
            )
        }
    } else {
        field.to_string().concat(" = ").concat(current.as_str())
    }
}

/// The lines about all settings, group by group.
pub fn show_all_settings(meta: &Vec<SettingMeta>, s: &AllSettings) -> (r: Vec<String>)
    ensures
        text::texts(r@) == show_lines(meta@, *s),
{
    let mut out: Vec<String> = Vec::new();
    let mut current = String::new();
    let mut i: usize = 0;
    assert(text::texts(out@) =~= show_lines(meta@.take(0), *s));
    while i < meta.len()
        invariant
            i <= meta@.len(),
            current@ == last_group(meta@.take(i as int)),
            text::texts(out@) == show_lines(meta@.take(i as int), *s),
        decreases meta@.len() - i,
    {
        let m = &meta[i];
        let ghost before = text::texts(out@);
        let ghost was = current@;
        proof {
            assert(meta@.take(i + 1).drop_last() =~= meta@.take(i as int));
            assert(meta@.take(i + 1).last() == *m);
            text::lemma_split_nonempty(m.key@, '.');
        }
        let parts = split_on(m.key.as_str(), '.');
        assert(text::texts(parts@).len() == parts@.len());
        assert(text::texts(parts@)[0] == parts@[0]@);
        let group = parts[0].clone();
        if !text_eq(group.as_str(), current.as_str()) {
            if !current.as_str().is_empty() {
                out.push("".to_string());
            }
            out.push("[settings.".to_string().concat(group.as_str()).concat("]"));
            current = group;
        }
        assert(text::texts(out@) =~= before + group_lines(was, group_of(m.key@)));
        let ghost grouped = text::texts(out@);
        out.push(write_value_line(m, s));
        assert(text::texts(out@) =~= grouped + seq![value_line(*m, *s)]);
        i = i + 1;
    }
    assert(meta@.take(i as int) =~= meta@);
    out
}

/// The JSON entries of all settings.
pub fn all_entries(meta: &Vec<SettingMeta>, s: &AllSettings) -> (r: Vec<JsonSettingEntry>)
    ensures
        all_described(r@, meta@, *s),
{
    let r = json_of(meta, &None, s);
    proof {
        lemma_all_listed(meta@);
    }
    r
}

proof fn lemma_all_listed(meta: Seq<SettingMeta>)
    ensures
        listed(meta, None) == meta,
    decreases meta.len(),
{
    if meta.len() > 0 {
        lemma_all_listed(meta.drop_last());
        assert(listed(meta, None) =~= meta);
    } else {
        assert(listed(meta, None) =~= meta);
    }
}

/// The suggestions for a key are the known keys that are at most three edits away or hold it.
pub proof fn suggestions_are_close(key: Seq<char>, keys: Seq<Seq<char>>, known: Seq<char>)
    ensures
        close_keys(key, keys).contains(known) <==> keys.contains(known) && (edit_distance(
            key,
            known,
        ) <= 3 || text::occurs_in(key, known)),
    decreases keys.len(),
{
    if keys.len() > 0 {
        let rest = keys.drop_last();
        suggestions_are_close(key, rest, known);
        let before = close_keys(key, rest);
        if keys.contains(known) {
            let k = choose|k: int| 0 <= k < keys.len() && keys[k] == known;
            if k < rest.len() {
                assert(rest[k] == known);
            }
        }
        if rest.contains(known) {
            let k = choose|k: int| 0 <= k < rest.len() && rest[k] == known;
            assert(keys[k] == known);
        }
        let all = close_keys(key, keys);
        if all.contains(known) {
            let k = choose|k: int| 0 <= k < all.len() && all[k] == known;
            if k < before.len() {
                assert(before[k] == known);
            } else {
                assert(keys[keys.len() - 1] == known);
            }
        }
        if before.contains(known) {
            let k = choose|k: int| 0 <= k < before.len() && before[k] == known;
            assert(all[k] == known);
        }
        if keys.contains(known) && is_close(key, known) && !rest.contains(known) {
            assert(keys.last() == known);
            assert(all[all.len() - 1] == known);
        }
    }
}

/// The suggestions for a key from two lists are those from each of them, in order.
pub proof fn suggestions_keep_their_order(key: Seq<char>, a: Seq<Seq<char>>, b: Seq<Seq<char>>)
    ensures
        close_keys(key, a + b) == close_keys(key, a) + close_keys(key, b),
    decreases b.len(),
{
    if b.len() == 0 {
        assert(a + b =~= a);
        assert(close_keys(key, a) + close_keys(key, b) =~= close_keys(key, a));
    } else {
        suggestions_keep_their_order(key, a, b.drop_last());
        assert((a + b).drop_last() =~= a + b.drop_last());
        assert((a + b).last() == b.last());
        assert(close_keys(key, a + b) =~= close_keys(key, a) + close_keys(key, b));
    }
}

/// An unknown key is told with its suggestions, separated by commas, or with where to look.
pub proof fn unknown_keys_are_told(key: Seq<char>, first: Seq<char>, more: Seq<Seq<char>>)
    ensures
        unknown_key(key, Seq::empty()) == "unknown setting '"@ + key
            + "'. Run 'pitchfork settings list' to see all available settings"@,
        unknown_key(key, seq![first]) == "unknown setting '"@ + key
            + "'. Did you mean one of: "@ + first + "?"@,
        more.len() > 0 ==> unknown_key(key, seq![first] + more) == "unknown setting '"@ + key
            + "'. Did you mean one of: "@ + (first + ", "@ + text::joined(more, ", "@)) + "?"@,
{
    text::lists_are_joined_with_separators(seq![first], more, ", "@);
}

/// A setting takes the values of its type: truth values, numbers or durations; a text takes any
/// value but for the two log levels, which have five.
pub proof fn settings_take_the_values_of_their_type(
    key: Seq<char>,
    value: Seq<char>,
    typ: Seq<char>,
)
    ensures
        typ == "Bool"@ ==> (value_fault(key, value, typ) is None <==> value == "true"@ || value
            == "false"@),
        typ == "Integer"@ ==> (value_fault(key, value, typ) is None <==> text::parsed_i64(
            value,
        ) is Some),
        typ == "Duration"@ ==> (value_fault(key, value, typ) is None <==> clock::duration_of(
            value,
        ) is Some),
        (typ == "String"@ || typ == "Path"@) && (key == "general.log_level"@ || key
            == "general.log_file_level"@) ==> (value_fault(key, value, typ) is None <==> value
            == "trace"@ || value == "debug"@ || value == "info"@ || value == "warn"@ || value
            == "error"@),
        (typ == "String"@ || typ == "Path"@) && key != "general.log_level"@ && key
            != "general.log_file_level"@ ==> value_fault(key, value, typ) is None,
{
    reveal_strlit("Bool");
    reveal_strlit("Integer");
    reveal_strlit("Duration");
    reveal_strlit("String");
    reveal_strlit("Path");
    assert("Bool"@[0] == 'B');
    assert("Integer"@[0] == 'I');
    assert("Duration"@[0] == 'D');
    assert("String"@[0] == 'S');
    assert("Path"@[0] == 'P');
    let levels = log_levels();
    assert(levels[0] == "trace"@);
    assert(levels[1] == "debug"@);
    assert(levels[2] == "info"@);
    assert(levels[3] == "warn"@);
    assert(levels[4] == "error"@);
}

/// What is told of a value names the value, the key, and what was expected.
pub proof fn refused_values_are_told(key: Seq<char>, value: Seq<char>, typ: Seq<char>)
    requires
        value_fault(key, value, typ) is Some,
    ensures
        typ == "Bool"@ ==> value_fault(key, value, typ)->0 == "invalid boolean value '"@ + value
            + "' for '"@ + key + "'. Expected 'true' or 'false'"@,
        typ == "Integer"@ ==> value_fault(key, value, typ)->0 == "invalid integer value '"@ + value
            + "' for '"@ + key + "'. Expected a number"@,
        typ == "Duration"@ ==> value_fault(key, value, typ)->0 == "invalid duration value '"@
            + value + "' for '"@ + key + "'. Expected a duration like '10s', '5m', '1h', '500ms'"@,
        typ == "String"@ || typ == "Path"@ ==> value_fault(key, value, typ)->0
            == "invalid log level '"@ + value + "' for '"@ + key + "'. Expected one of: "@
            + text::joined(seq!["trace"@, "debug"@, "info"@, "warn"@, "error"@], ", "@),
        typ == "Bool"@ || typ == "Integer"@ || typ == "Duration"@ || typ == "String"@ || typ
            == "Path"@,
{
    reveal_strlit("Bool");
    reveal_strlit("Integer");
    reveal_strlit("Duration");
    reveal_strlit("String");
    reveal_strlit("Path");
    assert("Bool"@[0] == 'B');
    assert("Integer"@[0] == 'I');
    assert("Duration"@[0] == 'D');
    assert("String"@[0] == 'S');
    assert("Path"@[0] == 'P');
}

/// A group has the key that is its name and the keys that go on with a dot behind it; without a
/// group all keys are shown.
pub proof fn groups_have_their_keys(key: Seq<char>, group: Seq<char>, rest: Seq<char>)
    ensures
        in_group(key, None),
        in_group(group, Some(group)),
        in_group(group + "."@ + rest, Some(group)),
        in_group(key, Some(group)) && key != group ==> exists|more: Seq<char>|
            key == #[trigger] (group + "."@ + more),
{
    assert((group + "."@).is_prefix_of(group + "."@ + rest)) by {
        assert(group + "."@ =~= (group + "."@ + rest).subrange(0, (group + "."@).len() as int));
    }
    if in_group(key, Some(group)) && key != group {
        let head = group + "."@;
        let more = key.skip(head.len() as int);
        assert(head =~= key.subrange(0, head.len() as int));
        assert(key =~= group + "."@ + more);
    }
}

/// A list shows each setting of the group, in order, and no other.
pub proof fn lists_show_the_group(
    a: Seq<SettingMeta>,
    m: SettingMeta,
    group: Option<Seq<char>>,
)
    ensures
        listed(Seq::empty(), group).len() == 0,
        all_list_lines(Seq::empty(), group).len() == 0,
        in_group(m.key@, group) ==> listed(a.push(m), group) == listed(a, group).push(m),
        !in_group(m.key@, group) ==> listed(a.push(m), group) == listed(a, group) && all_list_lines(
            a.push(m),
            group,
        ) == all_list_lines(a, group),
        in_group(m.key@, group) && m.description@.len() == 0 ==> all_list_lines(a.push(m), group)
            == all_list_lines(a, group).push(setting_head(m)),
        in_group(m.key@, group) && m.description@.len() > 0 ==> all_list_lines(a.push(m), group)
            == all_list_lines(a, group).push(setting_head(m)).push(
            "  "@ + first_line(m.description@),
        ),
{
    assert(a.push(m).drop_last() =~= a);
    assert(a.push(m).last() == m);
    assert(all_list_lines(a, group) + Seq::<Seq<char>>::empty() =~= all_list_lines(a, group));
    if in_group(m.key@, group) {
        if m.description@.len() == 0 {
            assert(list_lines(m) =~= seq![setting_head(m)]);
            assert(all_list_lines(a, group) + seq![setting_head(m)] =~= all_list_lines(
                a,
                group,
            ).push(setting_head(m)));
        } else {
            let more = "  "@ + first_line(m.description@);
            assert(list_lines(m) =~= seq![setting_head(m), more]);
            assert(all_list_lines(a, group) + seq![setting_head(m), more] =~= all_list_lines(
                a,
                group,
            ).push(setting_head(m)).push(more));
        }
    }
}

/// The first line about a setting: its key, its type, its default and its variable, where it has
/// one.
pub open spec fn setting_head(m: SettingMeta) -> Seq<char> {
    let default = if m.default_value is Some {
        m.default_value->0@
    } else {
        "(none)"@
    };
    let variable = if m.env_var is Some {
        " ["@ + m.env_var->0@ + "]"@
    } else {
        ""@
    };
    m.key@ + " ("@ + m.typ@ + ") default="@ + default + variable
}

/// The first line of a text reaches to its first line end, without a carriage return before it.
pub proof fn first_lines_end_at_the_line_end(line: Seq<char>, rest: Seq<char>)
    requires
        !line.contains('\n'),
    ensures
        first_line(line) == line,
        line.len() == 0 || line.last() != '\r' ==> first_line(line + seq!['\n'] + rest) == line,
        first_line(line + seq!['\r', '\n'] + rest) == line,
{
    lemma_split_head(line, rest, '\n');
    lemma_split_whole(line, '\n');
    let returned = line.push('\r');
    assert(!returned.contains('\n')) by {
        if returned.contains('\n') {
            let k = choose|k: int| 0 <= k < returned.len() && returned[k] == '\n';
            assert(line[k] == '\n');
        }
    }
    lemma_split_head(returned, rest, '\n');
    assert(returned + seq!['\n'] + rest =~= line + seq!['\r', '\n'] + rest);
    assert(returned.drop_last() =~= line);
}

proof fn lemma_split_whole(s: Seq<char>, c: char)
    requires
        !s.contains(c),
    ensures
        text::split(s, c) == seq![s],
    decreases s.len(),
{
    if s.len() == 0 {
        assert(s =~= Seq::<char>::empty());
    } else {
        let rest = s.drop_last();
        assert(s[s.len() - 1] != c);
        assert(!rest.contains(c)) by {
            if rest.contains(c) {
                let k = choose|k: int| 0 <= k < rest.len() && rest[k] == c;
                assert(s[k] == c);
            }
        }
        lemma_split_whole(rest, c);
        assert(rest.push(s.last()) =~= s);
        assert(text::split(s, c) =~= seq![s]);
    }
}

proof fn lemma_split_head(line: Seq<char>, rest: Seq<char>, c: char)
    requires
        !line.contains(c),
    ensures
        text::split(line + seq![c] + rest, c).len() == 1 + text::split(rest, c).len(),
        text::split(line + seq![c] + rest, c)[0] == line,
        text::split(line + seq![c] + rest, c).drop_first() == text::split(rest, c),
    decreases rest.len(),
{
    let s = line + seq![c] + rest;
    text::lemma_split_nonempty(rest, c);
    if rest.len() == 0 {
        assert(s.drop_last() =~= line);
        assert(s.last() == c);
        lemma_split_whole(line, c);
        assert(rest =~= Seq::<char>::empty());
        assert(text::split(s, c) =~= seq![line, Seq::empty()]);
        assert(text::split(s, c).drop_first() =~= text::split(rest, c));
    } else {
        let shorter = rest.drop_last();
        lemma_split_head(line, shorter, c);
        text::lemma_split_nonempty(shorter, c);
        assert(s.drop_last() =~= line + seq![c] + shorter);
        assert(s.last() == rest.last());
        let before = text::split(s.drop_last(), c);
        let inner = text::split(shorter, c);
        assert(before.last() == before.drop_first().last());
        assert(text::split(s, c).drop_first() =~= text::split(rest, c));
    }
}

/// A key of a group and a field has them around its dot; one without a dot is both.
pub proof fn keys_have_a_group_and_a_field(group: Seq<char>, field: Seq<char>)
    requires
        !group.contains('.'),
        !field.contains('.'),
    ensures
        group_of(group + seq!['.'] + field) == group,
        field_of(group + seq!['.'] + field) == field,
        group_of(group) == group,
        field_of(group) == group,
{
    lemma_split_head(group, field, '.');
    lemma_split_whole(group, '.');
    lemma_split_whole(field, '.');
    let all = text::split(group + seq!['.'] + field, '.');
    assert(all.drop_first()[0] == all[1]);
}

/// Each setting has a line under the title of its group; a title stands only where the group
/// changes, behind an empty line but for the first one.
pub proof fn settings_stand_under_their_group(a: Seq<SettingMeta>, m: SettingMeta, s: AllSettings)
    ensures
        a.len() > 0 && group_of(a.last().key@) == group_of(m.key@) ==> show_lines(a.push(m), s)
            == show_lines(a, s).push(value_line(m, s)),
        a.len() > 0 && group_of(a.last().key@) != group_of(m.key@) && group_of(a.last().key@).len()
            > 0 ==> show_lines(a.push(m), s) == show_lines(a, s).push(""@).push(
            "[settings."@ + group_of(m.key@) + "]"@,
        ).push(value_line(m, s)),
        a.len() == 0 && group_of(m.key@).len() > 0 ==> show_lines(a.push(m), s) == seq![
            "[settings."@ + group_of(m.key@) + "]"@,
            value_line(m, s),
        ],
{
    assert(a.push(m).drop_last() =~= a);
    assert(a.push(m).last() == m);
    let g = group_of(m.key@);
    let all = show_lines(a, s) + group_lines(last_group(a), g) + seq![value_line(m, s)];
    assert(show_lines(a.push(m), s) == all);
    if a.len() > 0 && group_of(a.last().key@) == g {
        assert(all =~= show_lines(a, s).push(value_line(m, s)));
    }
    if a.len() > 0 && group_of(a.last().key@) != g && group_of(a.last().key@).len() > 0 {
        assert(all =~= show_lines(a, s).push(""@).push("[settings."@ + g + "]"@).push(
            value_line(m, s),
        ));
    }
    if a.len() == 0 && g.len() > 0 {
        assert(all =~= seq!["[settings."@ + g + "]"@, value_line(m, s)]);
    }
}

/// A setting is shown with its value; one that has its default value is a comment that says so.
pub proof fn default_values_are_comments(m: SettingMeta, s: AllSettings, default: Seq<char>)
    requires
        m.default_value is Some ==> m.default_value->0@ == default,
        m.default_value is None ==> default.len() == 0,
    ensures
        s.shown(m.key@) != default ==> value_line(m, s) == field_of(m.key@) + " = "@ + s.shown(
            m.key@,
        ),
        s.shown(m.key@) == default && default.len() > 0 ==> value_line(m, s) == "# "@ + field_of(
            m.key@,
        ) + " = "@ + default + "  (default)"@,
        s.shown(m.key@) == default && default.len() == 0 ==> value_line(m, s) == "# "@ + field_of(
            m.key@,
        ) + "  (default: empty)"@,
{
    reveal_strlit("");
    if m.default_value is None {
        assert(default =~= ""@);
    }
}

/// A JSON entry tells the key, the value, the default, the type and the variable of its setting.
pub proof fn entries_tell_their_setting(e: JsonSettingEntry, m: SettingMeta, s: AllSettings)
    requires
        describes(e, m, s),
    ensures
        e.key@ == m.key@,
        e.value@ == s.shown(m.key@),
        e.default is Some <==> m.default_value is Some,
        e.default is Some ==> e.default->0@ == m.default_value->0@,
        e.kind is Some,
        e.kind->0@ == m.typ@,
        e.env_var is Some <==> m.env_var is Some,
        e.env_var is Some ==> e.env_var->0@ == m.env_var->0@,
{
}

/// There is one JSON entry for each setting, in order.
pub proof fn each_setting_has_an_entry(
    entries: Seq<JsonSettingEntry>,
    meta: Seq<SettingMeta>,
    s: AllSettings,
    i: int,
)
    requires
        all_described(entries, meta, s),
        0 <= i < meta.len(),
    ensures
        entries.len() == meta.len(),
        entries[i].key@ == meta[i].key@,
        entries[i].value@ == s.shown(meta[i].key@),
{
    assert(describes(entries[i], meta[i], s));
}

/// The suggestions stand in ascending order, each as often as it was found.
pub proof fn suggestions_are_sorted(sorted: Seq<Seq<char>>, list: Seq<Seq<char>>, i: int, j: int)
    requires
        sorted_of(sorted, list),
        0 <= i < j < sorted.len(),
    ensures
        order::text_le(sorted[i], sorted[j]),
        sorted.to_multiset() == list.to_multiset(),
{
    order::ascending_lists_never_step_back(sorted, i, j);
}

/// A key is known exactly where a setting has it.
pub proof fn known_keys_are_those_of_settings(meta: Seq<SettingMeta>, key: Seq<char>)
    ensures
        meta_keys(meta).contains(key) <==> exists|i: int|
            0 <= i < meta.len() && (#[trigger] meta[i]).key@ == key,
{
    let keys = meta_keys(meta);
    if keys.contains(key) {
        let i = choose|i: int| 0 <= i < keys.len() && keys[i] == key;
        assert(meta[i].key@ == key);
    }
    if exists|i: int| 0 <= i < meta.len() && (#[trigger] meta[i]).key@ == key {
        let i = choose|i: int| 0 <= i < meta.len() && (#[trigger] meta[i]).key@ == key;
        assert(keys[i] == key);
    }
}

} // verus!
