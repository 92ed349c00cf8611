//! The alias table: names and the text that replaces them.

use crate::text::{
    is_word, join, joined, lemma_words_are_words, lemma_words_concat, lemma_words_of_joined,
    lemma_words_of_word, split_whitespace, words,
};
use std::collections::{BTreeMap, HashMap};
use vstd::prelude::*;
use vstd::string::*;

verus! {

/// One alias: a name and the text that stands for it.
#[derive(Debug, Clone, PartialEq, Eq)]
pub struct AliasEntry {
    pub name: String,
    pub value: String,
}

impl View for AliasEntry {
    type V = (Seq<char>, Seq<char>);

    open spec fn view(&self) -> (Seq<char>, Seq<char>) {
        (self.name@, self.value@)
    }
}

impl DeepView for AliasEntry {
    type V = (Seq<char>, Seq<char>);

    open spec fn deep_view(&self) -> (Seq<char>, Seq<char>) {
        self@
    }
}

/// The mapping that a list of pairs stands for: each name maps to the value
/// of the last pair that holds it.
pub open spec fn mapping_of(pairs: Seq<(Seq<char>, Seq<char>)>) -> Map<Seq<char>, Seq<char>>
    decreases pairs.len(),
{
    if pairs.len() == 0 {
        Map::empty()
    } else {
        mapping_of(pairs.drop_last()).insert(pairs.last().0, pairs.last().1)
    }
}

/// No two pairs hold the same name.
pub open spec fn distinct_names(pairs: Seq<(Seq<char>, Seq<char>)>) -> bool {
    forall|i: int, j: int| 0 <= i < j < pairs.len() ==> pairs[i].0 != pairs[j].0
}

/// A name is mapped exactly if some pair holds it.
pub proof fn lemma_mapping_domain(pairs: Seq<(Seq<char>, Seq<char>)>, name: Seq<char>)
    ensures
        mapping_of(pairs).contains_key(name) <==> exists|i: int|
            0 <= i < pairs.len() && #[trigger] pairs[i].0 == name,
    decreases pairs.len(),
{
    if pairs.len() > 0 {
        let init = pairs.drop_last();
        lemma_mapping_domain(init, name);
        if mapping_of(pairs).contains_key(name) {
            if pairs.last().0 == name {
                assert(pairs[pairs.len() - 1].0 == name);
            } else {
                let i = choose|i: int| 0 <= i < init.len() && #[trigger] init[i].0 == name;
                assert(pairs[i].0 == name);
            }
        }
        if exists|i: int| 0 <= i < pairs.len() && #[trigger] pairs[i].0 == name {
            let i = choose|i: int| 0 <= i < pairs.len() && #[trigger] pairs[i].0 == name;
            if i < init.len() {
                assert(init[i].0 == name);
            }
        }
    }
}

/// Where names are distinct, each pair's name maps to that pair's value.
pub proof fn lemma_mapping_at(pairs: Seq<(Seq<char>, Seq<char>)>, i: int)
    requires
        distinct_names(pairs),
        0 <= i < pairs.len(),
    ensures
        mapping_of(pairs).contains_key(pairs[i].0),
        mapping_of(pairs)[pairs[i].0] == pairs[i].1,
    decreases pairs.len(),
{
    if i < pairs.len() - 1 {
        let init = pairs.drop_last();
        assert(init[i] == pairs[i]);
        lemma_mapping_at(init, i);
    }
}

/// Where names are distinct, a new value in one pair changes the mapping at
/// that pair's name and nowhere else.
pub proof fn lemma_mapping_update(pairs: Seq<(Seq<char>, Seq<char>)>, i: int, value: Seq<char>)
    requires
        distinct_names(pairs),
        0 <= i < pairs.len(),
    ensures
        distinct_names(pairs.update(i, (pairs[i].0, value))),
        mapping_of(pairs.update(i, (pairs[i].0, value))) == mapping_of(pairs).insert(
            pairs[i].0,
            value,
        ),
    decreases pairs.len(),
{
    let changed = pairs.update(i, (pairs[i].0, value));
    let init = pairs.drop_last();
    if i < pairs.len() - 1 {
        assert(init[i] == pairs[i]);
        lemma_mapping_update(init, i, value);
        assert(changed.drop_last() =~= init.update(i, (pairs[i].0, value)));
        assert(changed.last() == pairs.last());
        assert(mapping_of(changed) =~= mapping_of(pairs).insert(pairs[i].0, value));
    } else {
        assert(changed.drop_last() =~= init);
        assert(mapping_of(changed) =~= mapping_of(pairs).insert(pairs[i].0, value));
    }
}

/// The first word of a line; the empty text where the line has no word.
pub open spec fn first_word(line: Seq<char>) -> Seq<char> {
    if words(line).len() > 0 {
        words(line)[0]
    } else {
        Seq::empty()
    }
}

/// The words of a line after the first.
pub open spec fn later_words(line: Seq<char>) -> Seq<Seq<char>> {
    if words(line).len() > 0 {
        words(line).skip(1)
    } else {
        Seq::empty()
    }
}

/// The line that is run for `line`: where its first word is an alias, the
/// alias's text takes the place of that word and the later words follow,
/// each after a single space; any other line stays as it is. The alias's
/// text is put in once and is not looked up in turn.
pub open spec fn expanded(aliases: Map<Seq<char>, Seq<char>>, line: Seq<char>) -> Seq<char> {
    if aliases.contains_key(first_word(line)) {
        aliases[first_word(line)] + seq![' '] + joined(later_words(line))
    } else {
        line
    }
}

/// An expanded line holds the words of the alias's text, then the later
/// words of the line, each as it was.
pub proof fn lemma_words_of_expanded(aliases: Map<Seq<char>, Seq<char>>, line: Seq<char>)
    requires
        aliases.contains_key(first_word(line)),
    ensures
        words(expanded(aliases, line)) == words(aliases[first_word(line)]) + later_words(line),
{
    lemma_words_are_words(line);
    lemma_words_of_joined(later_words(line));
    lemma_words_concat(aliases[first_word(line)], ' ', joined(later_words(line)));
}

/// Expansion is not repeated. Where the line begins with the alias `outer`,
/// which stands for the single word `inner`, the expanded line begins with
/// `inner`, although `inner` is itself an alias, and never with what `inner`
/// stands for in its place.
pub proof fn lemma_expansion_is_not_repeated(
    aliases: Map<Seq<char>, Seq<char>>,
    line: Seq<char>,
    outer: Seq<char>,
    inner: Seq<char>,
)
    requires
        words(line).len() > 0,
        words(line)[0] == outer,
        aliases.contains_key(outer),
        aliases[outer] == inner,
        is_word(inner),
        aliases.contains_key(inner),
    ensures
        expanded(aliases, line) == inner + seq![' '] + joined(later_words(line)),
        words(expanded(aliases, line)) == seq![inner] + later_words(line),
        first_word(expanded(aliases, line)) == inner,
{
    lemma_words_of_expanded(aliases, line);
    lemma_words_of_word(inner);
}

/// The mapping that a JSON text holds: `Some` where the text is a single
/// JSON object whose members are all strings, `None` for any other text.
pub uninterp spec fn parsed_document(text: Seq<char>) -> Option<Map<Seq<char>, Seq<char>>>;

/// The indented JSON text of a mapping: one object, its members in the order
/// of their names.
pub uninterp spec fn pretty_document(aliases: Map<Seq<char>, Seq<char>>) -> Seq<char>;

/// What a session starts with, given the contents of its alias file, or
/// `None` where there is no such file: the mapping in the file, and no alias
/// at all where the file is missing or does not hold a mapping.
pub open spec fn loaded(contents: Option<Seq<char>>) -> Map<Seq<char>, Seq<char>> {
    match contents {
        Some(text) => match parsed_document(text) {
            Some(aliases) => aliases,
            None => Map::empty(),
        },
        None => Map::empty(),
    }
}

/// `serde_json::Error`, carried through as it is; nothing is known of what
/// it holds.
#[verifier::external_type_specification]
#[verifier::external_body]
pub struct ExJsonError(serde_json::Error);

/// Calls `serde_json::from_str` to read a map from strings to strings, and
/// hands its members out as entries. Not proved: that the outcome depends on
/// the text alone. `parsed_document` names the mapping read; the members of
/// one map have distinct names, so the entries stand for that mapping in
/// whatever order they come.
#[verifier::external_body]
fn json_from_str(text: &str) -> (parsed: Result<Vec<AliasEntry>, serde_json::Error>)
    ensures
        match parsed {
            Ok(entries) => parsed_document(text@) == Some(mapping_of(entries.deep_view())),
            Err(_) => parsed_document(text@).is_none(),
        },
{
    let members: HashMap<String, String> = serde_json::from_str(text)?;
    Ok(members.into_iter().map(|(name, value)| AliasEntry { name, value }).collect())
}

/// Calls `serde_json::to_string_pretty` on the table's entries as a map
/// ordered by name. `pretty_document` names the text written. Not proved:
/// - that the text depends only on which name stands for which value: the
///   members are written in the order of their names;
/// - that the call succeeds: writing fails only where the output cannot be
///   written to or a member's name is not a string, and here the output is
///   a buffer in memory and every name is a string;
/// - that `serde_json::from_str` reads the text back as the same mapping: in
///   a string the writer escapes the double quote, the backslash and the
///   characters below U+0020 and writes every other character as it is, and
///   the reader takes each of these escapes for the character it was
///   written for and every other character for itself.
#[verifier::external_body]
fn json_to_string_pretty(table: &AliasTable) -> (text: Result<String, serde_json::Error>)
    requires
        table.wf(),
    ensures
        text is Ok,
        text matches Ok(written) ==> pretty_document(table@) == written@,
        text matches Ok(written) ==> parsed_document(written@) == Some(table@),
{
    let members: BTreeMap<&str, &str> = table.entries.iter().map(
        |entry| (entry.name.as_str(), entry.value.as_str()),
    ).collect();
    serde_json::to_string_pretty(&members)
}

/// The aliases of a session: a finite mapping from names to replacement
/// texts, in which no name occurs twice.
#[derive(Debug, Clone)]
pub struct AliasTable {
    entries: Vec<AliasEntry>,
}

impl View for AliasTable {
    type V = Map<Seq<char>, Seq<char>>;

    closed spec fn view(&self) -> Map<Seq<char>, Seq<char>> {
        mapping_of(self.entries.deep_view())
    }
}

impl AliasTable {
    /// The table holds each name once.
    pub closed spec fn wf(&self) -> bool {
        distinct_names(self.entries.deep_view())
    }

    /// A table without aliases.
    pub fn new() -> (table: Self)
        ensures
            table.wf(),
            table@ == Map::<Seq<char>, Seq<char>>::empty(),
    {
        let table = AliasTable { entries: Vec::new() };
        assert(table.entries.deep_view() =~= Seq::empty());
        table
    }

    /// Makes `name` stand for `value`, whether or not it stood for anything
    /// before.
    pub fn define(&mut self, name: String, value: String)
        requires
            old(self).wf(),
        ensures
            final(self).wf(),
            final(self)@ == old(self)@.insert(name@, value@),
    {
        let ghost before = self.entries.deep_view();
        let mut i: usize = 0;
        while i < self.entries.len()
            invariant
                i <= self.entries.len(),
                self.entries.deep_view() == before,
                old(self)@ == mapping_of(before),
                distinct_names(before),
                forall|k: int| 0 <= k < i ==> (#[trigger] before[k]).0 != name@,
            decreases self.entries.len() - i,
        {
            if self.entries[i].name == name {
                proof {
                    assert(before[i as int] == self.entries[i as int]@);
                    lemma_mapping_update(before, i as int, value@);
                }
                self.entries[i].value = value;
                assert(self.entries.deep_view() =~= before.update(i as int, (name@, value@)));
                return ;
            }
            i += 1;
        }
        self.entries.push(AliasEntry { name, value });
        proof {
            let after = self.entries.deep_view();
            assert(after =~= before.push((name@, value@)));
            assert(after.drop_last() =~= before);
        }
    }

    /// The table that a list of entries stands for. Where a name occurs more
    /// than once, its last entry counts.
    pub fn from_entries(entries: Vec<AliasEntry>) -> (table: Self)
        ensures
            table.wf(),
            table@ == mapping_of(entries.deep_view()),
    {
        let ghost pairs = entries.deep_view();
        let ghost items = entries@;
        let mut table = AliasTable::new();
        assert(pairs.take(0) =~= Seq::empty());
        for entry in it: entries
            invariant
                it.seq() == items,
                pairs.len() == items.len(),
                forall|k: int| 0 <= k < items.len() ==> pairs[k] == (#[trigger] items[k])@,
                table.wf(),
                table@ == mapping_of(pairs.take(it.index())),
        {
            proof {
                let k = it.index();
                assert(pairs.take(k + 1).drop_last() =~= pairs.take(k));
                assert(pairs.take(k + 1).last() == entry@);
            }
            table.define(entry.name, entry.value);
        }
        assert(pairs.take(pairs.len() as int) =~= pairs);
        table
    }

    /// The table that a session starts with: `contents` is what the alias
    /// file holds, or `None` where there is no such file.
    pub fn load(contents: Option<&str>) -> (table: Self)
        ensures
            table.wf(),
            table@ == loaded(
                match contents {
                    Some(text) => Some(text@),
                    None => None,
                },
            ),
    {
        match contents {
            Some(text) => match json_from_str(text) {
                Ok(entries) => AliasTable::from_entries(entries),
                Err(_) => AliasTable::new(),
            },
            None => AliasTable::new(),
        }
    }

    /// The document to keep in the alias file: the whole table as indented
    /// JSON. A session that starts from this document starts with the
    /// aliases of this table.
    pub fn document(&self) -> (text: String)
        requires
            self.wf(),
        ensures
            text@ == pretty_document(self@),
            loaded(Some(text@)) == self@,
    {
        match json_to_string_pretty(self) {
            Ok(written) => written,
            Err(_) => unreached(),
        }
    }

    /// The line to run for `line`: the line itself, or, where its first word
    /// is an alias, the alias's text followed by the later words.
    pub fn expand(&self, line: &str) -> (out: String)
        requires
            self.wf(),
        ensures
            out@ == expanded(self@, line@),
    {
        let mut ws = split_whitespace(line);
        proof {
            reveal_strlit("");
            reveal_strlit(" ");
            assert(""@ =~= Seq::<char>::empty());
            assert(" "@ =~= seq![' ']);
        }
        let found = if ws.len() > 0 {
            self.resolve(ws[0].as_str())
        } else {
            self.resolve("")
        };
        match found {
            Some(value) => {
                let mut out = value.clone();
                out.append(" ");
                if ws.len() > 0 {
                    ws.remove(0);
                    assert(ws.deep_view() =~= words(line@).skip(1));
                }
                let rest = join(&ws);
                out.append(rest.as_str());
                out
            },
            None => line.to_owned(),
        }
    }

    /// The text that `name` stands for, if it is an alias.
    pub fn resolve(&self, name: &str) -> (value: Option<&String>)
        requires
            self.wf(),
        ensures
            match value {
                Some(text) => self@.contains_key(name@) && self@[name@] == text@,
                None => !self@.contains_key(name@),
            },
    {
        let ghost pairs = self.entries.deep_view();
        let wanted = name.to_owned();
        let mut i: usize = 0;
        while i < self.entries.len()
            invariant
                i <= self.entries.len(),
                self.entries.deep_view() == pairs,
                distinct_names(pairs),
                wanted@ == name@,
                forall|k: int| 0 <= k < i ==> (#[trigger] pairs[k]).0 != name@,
            decreases self.entries.len() - i,
        {
            if self.entries[i].name == wanted {
                proof {
                    assert(pairs[i as int] == self.entries[i as int]@);
                    lemma_mapping_at(pairs, i as int);
                }
                return Some(&self.entries[i].value);
            }
            i += 1;
        }
        proof {
            lemma_mapping_domain(pairs, name@);
        }
        None
    }
}

} // verus!
