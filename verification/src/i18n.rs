//! The texts of the user interface, in nine languages.
//!
//! Each language is one flat dictionary. A key that a language does not have,
//! or has only as an empty text, is shown in English; one that English does not
//! have either is shown as itself, so that a mistyped key can be seen.

use vstd::prelude::*;
use crate::text::{replace_text, replaced, same_text};

verus! {

#[derive(Clone, Copy, PartialEq, Eq, Structural, Debug)]
pub enum Lang {
    En,
    Vi,
    Fr,
    Es,
    It,
    De,
    Ja,
    Ko,
    Zh,
}

impl Default for Lang {
    fn default() -> (r: Self)
        ensures
            r == Lang::En,
    {
        Lang::En
    }
}

impl Lang {
    /// The order of the language picker: English as the source, then the rest
    /// by script.
    pub const ALL: [Lang; 9] = [
        Lang::En,
        Lang::Vi,
        Lang::Fr,
        Lang::Es,
        Lang::It,
        Lang::De,
        Lang::Ja,
        Lang::Ko,
        Lang::Zh,
    ];

    /// The place of a language in that order.
    pub open spec fn place(self) -> int {
        match self {
            Lang::En => 0,
            Lang::Vi => 1,
            Lang::Fr => 2,
            Lang::Es => 3,
            Lang::It => 4,
            Lang::De => 5,
            Lang::Ja => 6,
            Lang::Ko => 7,
            Lang::Zh => 8,
        }
    }

    /// The place of a language in the order of the picker.
    pub fn index(self) -> (r: usize)
        ensures
            r == self.place(),
    {
        match self {
            Lang::En => 0,
            Lang::Vi => 1,
            Lang::Fr => 2,
            Lang::Es => 3,
            Lang::It => 4,
            Lang::De => 5,
            Lang::Ja => 6,
            Lang::Ko => 7,
            Lang::Zh => 8,
        }
    }

    /// The language's own name for itself, in its own script, so that a speaker
    /// finds it without reading English.
    pub fn label(self) -> (r: &'static str)
        ensures
            r@ == match self {
                Lang::En => "ENGLISH"@,
                Lang::Vi => "TIẾNG VIỆT"@,
                Lang::Fr => "FRANÇAIS"@,
                Lang::Es => "ESPAÑOL"@,
                Lang::It => "ITALIANO"@,
                Lang::De => "DEUTSCH"@,
                Lang::Ja => "日本語"@,
                Lang::Ko => "한국어"@,
                Lang::Zh => "中文"@,
            },
    {
        match self {
            Lang::En => "ENGLISH",
            Lang::Vi => "TIẾNG VIỆT",
            Lang::Fr => "FRANÇAIS",
            Lang::Es => "ESPAÑOL",
            Lang::It => "ITALIANO",
            Lang::De => "DEUTSCH",
            Lang::Ja => "日本語",
            Lang::Ko => "한국어",
            Lang::Zh => "中文",
        }
    }

    /// The name of the dictionary file, without its extension.
    pub fn code(self) -> (r: &'static str)
        ensures
            r@ == match self {
                Lang::En => "en"@,
                Lang::Vi => "vi"@,
                Lang::Fr => "fr"@,
                Lang::Es => "es"@,
                Lang::It => "it"@,
                Lang::De => "de"@,
                Lang::Ja => "ja"@,
                Lang::Ko => "ko"@,
                Lang::Zh => "zh"@,
            },
    {
        match self {
            Lang::En => "en",
            Lang::Vi => "vi",
            Lang::Fr => "fr",
            Lang::Es => "es",
            Lang::It => "it",
            Lang::De => "de",
            Lang::Ja => "ja",
            Lang::Ko => "ko",
            Lang::Zh => "zh",
        }
    }
}

/// The dictionary that a JSON text spells out, where it is a JSON object of
/// strings: what `serde_json::from_str` makes of it as a map from strings to
/// strings.
pub uninterp spec fn json_dictionary(raw: Seq<char>) -> Option<Map<Seq<char>, Seq<char>>>;

/// What a list of entries maps each key to; of two entries of one key the later
/// one counts.
pub open spec fn dictionary(entries: Seq<(String, String)>) -> Map<Seq<char>, Seq<char>>
    decreases entries.len(),
{
    if entries.len() == 0 {
        Map::empty()
    } else {
        dictionary(entries.drop_last()).insert(entries.last().0@, entries.last().1@)
    }
}

/// Parses a dictionary with `serde_json::from_str`, into a map from strings to
/// strings. Nothing where the text is not such an object. The entries come in
/// no particular order, one for each key; what the dictionary of a given text
/// is, is serde_json's to say.
#[verifier::external_body]
fn parse_dictionary(raw: &str) -> (r: Option<Vec<(String, String)>>)
    ensures
        match r {
            Some(entries) => json_dictionary(raw@) == Some(dictionary(entries@)),
            None => json_dictionary(raw@) is None,
        },
{
    let parsed: Result<std::collections::HashMap<String, String>, serde_json::Error> =
        serde_json::from_str(raw);
    parsed.ok().map(|map| map.into_iter().collect())
}

/// One language's texts by key.
pub struct Dict {
    pub entries: Vec<(String, String)>,
}

impl View for Dict {
    type V = Map<Seq<char>, Seq<char>>;

    open spec fn view(&self) -> Map<Seq<char>, Seq<char>> {
        dictionary(self.entries@)
    }
}

impl Dict {
    /// The text of a key.
    pub fn get(&self, key: &str) -> (r: Option<&str>)
        ensures
            match r {
                Some(text) => self@.contains_key(key@) && self@[key@] == text@,
                None => !self@.contains_key(key@),
            },
    {
        let mut i: usize = self.entries.len();
        assert(self.entries@.subrange(0, i as int) == self.entries@);
        while i > 0
            invariant
                i <= self.entries.len(),
                self@.contains_key(key@) == dictionary(
                    self.entries@.subrange(0, i as int),
                ).contains_key(key@),
                self@.contains_key(key@) ==> self@[key@] == dictionary(
                    self.entries@.subrange(0, i as int),
                )[key@],
            decreases i,
        {
            proof {
                assert(self.entries@.subrange(0, i as int).drop_last() == self.entries@.subrange(
                    0,
                    i - 1,
                ));
            }
            i -= 1;
            if same_text(self.entries[i].0.as_str(), key) {
                return Some(self.entries[i].1.as_str());
            }
        }
        None
    }
}

/// The dictionary of a file: empty where the file does not parse, so that a
/// stray comma makes one language read as English and stops nothing.
pub fn load_dict(raw: &str) -> (r: Dict)
    ensures
        r@ == match json_dictionary(raw@) {
            Some(map) => map,
            None => Map::empty(),
        },
{
    match parse_dictionary(raw) {
        Some(entries) => Dict { entries },
        None => Dict { entries: Vec::new() },
    }
}

/// The dictionaries of all languages, in the order of the picker.
pub struct Dicts {
    pub all: Vec<Dict>,
}

impl Dicts {
    /// Whether there is one dictionary for each language.
    pub open spec fn wf(&self) -> bool {
        self.all@.len() == 9
    }

    /// A language's texts.
    pub open spec fn of(&self, lang: Lang) -> Map<Seq<char>, Seq<char>> {
        self.all@[lang.place()]@
    }
}

/// Reads the nine dictionary files, given in the order of the picker.
pub fn load_dicts(sources: &[&str; 9]) -> (r: Dicts)
    ensures
        r.wf(),
        forall|i: int|
            0 <= i < 9 ==> (#[trigger] r.all@[i])@ == match json_dictionary(sources@[i]@) {
                Some(map) => map,
                None => Map::empty(),
            },
{
    let mut all: Vec<Dict> = Vec::new();
    let mut i: usize = 0;
    while i < 9
        invariant
            i <= 9,
            all@.len() == i,
            forall|k: int|
                0 <= k < i ==> (#[trigger] all@[k])@ == match json_dictionary(sources@[k]@) {
                    Some(map) => map,
                    None => Map::empty(),
                },
        decreases 9 - i,
    {
        all.push(load_dict(sources[i]));
        i += 1;
    }
    Dicts { all }
}

/// A language's own text for a key, if it has one that is not empty.
pub open spec fn own_text(dicts: Dicts, lang: Lang, key: Seq<char>) -> Option<Seq<char>> {
    if dicts.of(lang).contains_key(key) && dicts.of(lang)[key].len() > 0 {
        Some(dicts.of(lang)[key])
    } else {
        None
    }
}

/// The text shown for a key.
pub open spec fn shown_text(dicts: Dicts, lang: Lang, key: Seq<char>) -> Seq<char> {
    match own_text(dicts, lang, key) {
        Some(text) => text,
        None => match own_text(dicts, Lang::En, key) {
            Some(text) => text,
            None => key,
        },
    }
}

/// A language's own text for a key; an empty one counts as none.
pub fn entry<'a>(dicts: &'a Dicts, lang: Lang, key: &str) -> (r: Option<&'a str>)
    requires
        dicts.wf(),
    ensures
        match r {
            Some(text) => own_text(*dicts, lang, key@) == Some(text@),
            None => own_text(*dicts, lang, key@) is None,
        },
{
    match dicts.all[lang.index()].get(key) {
        Some(text) => if text.is_empty() {
            None
        } else {
            Some(text)
        },
        None => None,
    }
}

/// The text shown for a key: the language's, else the English one, else the key
/// itself.
pub fn t<'a>(dicts: &'a Dicts, lang: Lang, key: &'a str) -> (r: &'a str)
    requires
        dicts.wf(),
    ensures
        r@ == shown_text(*dicts, lang, key@),
{
    match entry(dicts, lang, key) {
        Some(text) => text,
        None => match entry(dicts, Lang::En, key) {
            Some(text) => text,
            None => key,
        },
    }
}

/// What a list of named values holds.
pub open spec fn vars_view(vars: Seq<(&str, &str)>) -> Seq<(Seq<char>, Seq<char>)> {
    vars.map_values(|v: (&str, &str)| (v.0@, v.1@))
}

/// A text with `{name}` replaced for each named value, one after the other.
pub open spec fn filled(text: Seq<char>, vars: Seq<(Seq<char>, Seq<char>)>) -> Seq<char>
    decreases vars.len(),
{
    if vars.len() == 0 {
        text
    } else {
        replaced(filled(text, vars.drop_last()), "{"@ + vars.last().0 + "}"@, vars.last().1)
    }
}

/// The text shown for a key, with each `{name}` replaced by its value. A value
/// whose name does not occur changes nothing.
pub fn tv(dicts: &Dicts, lang: Lang, key: &str, vars: &[(&str, &str)]) -> (r: String)
    requires
        dicts.wf(),
    ensures
        r@ == filled(shown_text(*dicts, lang, key@), vars_view(vars@)),
{
    let mut out = t(dicts, lang, key).to_owned();
    let mut i: usize = 0;
    let ghost all = vars_view(vars@);
    assert(all.subrange(0, 0).len() == 0);
    while i < vars.len()
        invariant
            i <= vars.len(),
            all == vars_view(vars@),
            out@ == filled(shown_text(*dicts, lang, key@), all.subrange(0, i as int)),
        decreases vars.len() - i,
    {
        let mut pattern = "{".to_owned();
        pattern.append(vars[i].0);
        pattern.append("}");
        proof {
            reveal_strlit("{");
            assert(all.subrange(0, i + 1).drop_last() == all.subrange(0, i as int));
        }
        out = replace_text(out.as_str(), pattern.as_str(), vars[i].1);
        i += 1;
    }
    assert(all.subrange(0, all.len() as int) == all);
    out
}

/// The text shown for a key, with one `{name}` replaced by its value.
pub fn tv_one(dicts: &Dicts, lang: Lang, key: &str, name: &str, value: &str) -> (r: String)
    requires
        dicts.wf(),
    ensures
        r@ == filled(shown_text(*dicts, lang, key@), seq![(name@, value@)]),
{
    let vars = [(name, value)];
    assert(vars_view(vars@) =~= seq![(name@, value@)]);
    tv(dicts, lang, key, &vars)
}

/// A key that no dictionary knows is shown as itself, in every language.
pub proof fn law_an_unknown_key_shows_itself(dicts: Dicts, lang: Lang, key: Seq<char>)
    requires
        dicts.wf(),
        !dicts.of(lang).contains_key(key),
        !dicts.of(Lang::En).contains_key(key),
    ensures
        shown_text(dicts, lang, key) == key,
{
}

/// A half-finished translation shows English for the rest: where a language
/// has no text of its own, it shows what English shows.
pub proof fn law_a_missing_text_is_english(dicts: Dicts, lang: Lang, key: Seq<char>)
    requires
        dicts.wf(),
        own_text(dicts, lang, key) is None,
    ensures
        shown_text(dicts, lang, key) == shown_text(dicts, Lang::En, key),
{
}

/// No text that is shown is empty, unless the key itself is.
pub proof fn law_no_text_is_blank(dicts: Dicts, lang: Lang, key: Seq<char>)
    requires
        dicts.wf(),
        key.len() > 0,
    ensures
        shown_text(dicts, lang, key).len() > 0,
{
}

// --- what the texts on display promise ------------------------------------

/// Each language has the dictionary of its own place.
pub proof fn law_every_language_has_its_place(lang: Lang, r: usize)
    requires
        call_ensures(Lang::index, (lang,), r),
    ensures
        r < 9,
        Lang::ALL@[r as int] == lang,
{
}

/// A dictionary gives the text that was entered last for a key, and none where
/// none was.
pub proof fn law_the_last_entry_of_a_key_counts(
    dict: &Dict,
    key: &str,
    r: Option<&str>,
    i: int,
)
    requires
        call_ensures(Dict::get, (dict, key), r),
    ensures
        0 <= i < dict.entries@.len() && dict.entries@[i].0@ == key@ && (forall|j: int|
            i < j < dict.entries@.len() ==> (#[trigger] dict.entries@[j]).0@ != key@) ==> r is Some
            && r->Some_0@ == dict.entries@[i].1@,
        (forall|j: int| 0 <= j < dict.entries@.len() ==> (#[trigger] dict.entries@[j]).0@ != key@)
            ==> r is None,
{
    lemma_dictionary(dict.entries@, key@, i);
}

proof fn lemma_dictionary(entries: Seq<(String, String)>, key: Seq<char>, i: int)
    ensures
        0 <= i < entries.len() && entries[i].0@ == key && (forall|j: int|
            i < j < entries.len() ==> (#[trigger] entries[j]).0@ != key) ==> dictionary(
            entries,
        ).contains_key(key) && dictionary(entries)[key] == entries[i].1@,
        (forall|j: int| 0 <= j < entries.len() ==> (#[trigger] entries[j]).0@ != key)
            ==> !dictionary(entries).contains_key(key),
    decreases entries.len(),
{
    if entries.len() > 0 {
        let rest = entries.drop_last();
        let last = entries.len() - 1;
        lemma_dictionary(rest, key, i);
        assert(entries[last] == entries.last());
        assert forall|j: int| 0 <= j < rest.len() implies #[trigger] rest[j] == entries[j] by {}
        if 0 <= i < last && entries[i].0@ == key && (forall|j: int|
            i < j < entries.len() ==> (#[trigger] entries[j]).0@ != key) {
            assert(entries[last].0@ != key);
            assert(rest[i] == entries[i]);
            assert forall|j: int| i < j < rest.len() implies (#[trigger] rest[j]).0@ != key by {
                assert(entries[j].0@ != key);
            }
        }
        if forall|j: int| 0 <= j < entries.len() ==> (#[trigger] entries[j]).0@ != key {
            assert(entries[last].0@ != key);
            assert forall|j: int| 0 <= j < rest.len() implies (#[trigger] rest[j]).0@ != key by {
                assert(entries[j].0@ != key);
            }
        }
    }
}

/// The text shown for a key is the language's own where it has one that is not
/// empty, else the English one where there is one that is not empty, else the
/// key itself.
pub proof fn law_a_text_falls_back_to_english(
    dicts: &Dicts,
    lang: Lang,
    place: usize,
    key: &str,
    own: Option<&str>,
    english: Option<&str>,
    r: &str,
)
    requires
        dicts.all@.len() == 9,
        call_ensures(Lang::index, (lang,), place),
        call_ensures(Dict::get, (&dicts.all@[place as int], key), own),
        call_ensures(Dict::get, (&dicts.all@[0], key), english),
        call_ensures(t, (dicts, lang, key), r),
    ensures
        own is Some && own->Some_0@.len() > 0 ==> r@ == own->Some_0@,
        !(own is Some && own->Some_0@.len() > 0) && english is Some && english->Some_0@.len() > 0
            ==> r@ == english->Some_0@,
        !(own is Some && own->Some_0@.len() > 0) && !(english is Some && english->Some_0@.len()
            > 0) ==> r@ == key@,
{
}

/// A text with one value in it is the text for its key with the value in the
/// place of its name in braces.
pub proof fn law_a_value_stands_for_its_name(
    dicts: &Dicts,
    lang: Lang,
    key: &str,
    name: &str,
    value: &str,
    base: &str,
    braced: &str,
    replaced_text: String,
    r: String,
)
    requires
        braced@ == "{"@ + name@ + "}"@,
        call_ensures(t, (dicts, lang, key), base),
        call_ensures(replace_text, (base, braced, value), replaced_text),
        call_ensures(tv_one, (dicts, lang, key, name, value), r),
    ensures
        r@ == replaced_text@,
{
    let vars = seq![(name@, value@)];
    assert(vars.drop_last() =~= Seq::<(Seq<char>, Seq<char>)>::empty());
    assert(vars.last() == (name@, value@));
    assert(filled(base@, vars.drop_last()) == base@);
}

/// A dictionary for each language comes from the source of its own place; a
/// source that cannot be read gives an empty one.
pub proof fn law_each_source_is_its_languages(
    sources: &[&str; 9],
    r: Dicts,
    i: int,
    one: Dict,
)
    requires
        call_ensures(load_dicts, (sources,), r),
        0 <= i < 9,
        call_ensures(load_dict, (sources@[i],), one),
    ensures
        r.all@.len() == 9,
        r.all@[i]@ == one@,
{
    assert(r.all@[i]@ == match json_dictionary(sources@[i]@) {
        Some(map) => map,
        None => Map::empty(),
    });
}

/// With one value more, a text is what it was with the others, with that value
/// in the place of its name in braces; with no value it is the text for its key.
pub proof fn law_values_are_put_in_one_after_the_other(
    dicts: &Dicts,
    lang: Lang,
    key: &str,
    few: &[(&str, &str)],
    more: &[(&str, &str)],
    name: &str,
    value: &str,
    base: &str,
    with_few: String,
    as_text: &str,
    braced: &str,
    with_one_more: String,
    r: String,
)
    requires
        more@ == few@.push((name, value)),
        braced@ == "{"@ + name@ + "}"@,
        as_text@ == with_few@,
        call_ensures(t, (dicts, lang, key), base),
        call_ensures(tv, (dicts, lang, key, few), with_few),
        call_ensures(replace_text, (as_text, braced, value), with_one_more),
        call_ensures(tv, (dicts, lang, key, more), r),
    ensures
        few@.len() == 0 ==> with_few@ == base@,
        r@ == with_one_more@,
{
    let a = vars_view(few@);
    let b = vars_view(more@);
    assert(b.drop_last() =~= a);
    assert(b.last() == (name@, value@));
}

/// A language's own text for a key is the one in its dictionary, unless that is
/// empty.
pub proof fn law_an_empty_text_is_none(
    dicts: &Dicts,
    lang: Lang,
    place: usize,
    key: &str,
    found: Option<&str>,
    r: Option<&str>,
)
    requires
        dicts.all@.len() == 9,
        call_ensures(Lang::index, (lang,), place),
        call_ensures(Dict::get, (&dicts.all@[place as int], key), found),
        call_ensures(entry, (dicts, lang, key), r),
    ensures
        r is Some <==> found is Some && found->Some_0@.len() > 0,
        r is Some ==> r->Some_0@ == found->Some_0@,
{
}

} // verus!
