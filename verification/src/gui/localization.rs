//! Language packs and the lookup of translated texts.
use crate::common::text::{chars_of, replace_all, replace_chars, string_of, text_equal};
use vstd::prelude::*;

verus! {

/// The translations of one language.
#[derive(Debug, Clone)]
pub struct LanguagePack {
    /// The language's display name.
    pub name: String,
    /// The language's code, such as `en`.
    pub code: String,
    /// Key and text pairs; the first pair of a key is the one that counts.
    pub translations: Vec<(String, String)>,
}

/// The text stored under `key` in a list of pairs: the first pair with that
/// key decides.
pub open spec fn pair_lookup(pairs: Seq<(String, String)>, key: Seq<char>) -> Option<Seq<char>>
    decreases pairs.len(),
{
    if pairs.len() == 0 {
        None
    } else if pairs[0].0@ == key {
        Some(pairs[0].1@)
    } else {
        pair_lookup(pairs.drop_first(), key)
    }
}

/// The index of the first pair with key `key`, if any.
fn find_pair(pairs: &Vec<(String, String)>, key: &str) -> (i: Option<usize>)
    ensures
        match i {
            Some(i) => i < pairs@.len() && pairs@[i as int].0@ == key@
                && forall|j: int| 0 <= j < i ==> pairs@[j].0@ != key@,
            None => forall|j: int| 0 <= j < pairs@.len() ==> pairs@[j].0@ != key@,
        },
{
    let mut i: usize = 0;
    while i < pairs.len()
        invariant
            i <= pairs@.len(),
            forall|j: int| 0 <= j < i ==> pairs@[j].0@ != key@,
        decreases pairs.len() - i,
    {
        if text_equal(pairs[i].0.as_str(), key) {
            return Some(i);
        }
        i = i + 1;
    }
    None
}

proof fn lemma_pair_lookup_at(pairs: Seq<(String, String)>, key: Seq<char>, i: int)
    requires
        0 <= i < pairs.len(),
        pairs[i].0@ == key,
        forall|j: int| 0 <= j < i ==> pairs[j].0@ != key,
    ensures
        pair_lookup(pairs, key) == Some(pairs[i].1@),
    decreases i,
{
    if i > 0 {
        lemma_pair_lookup_at(pairs.drop_first(), key, i - 1);
    }
}

proof fn lemma_pair_lookup_none(pairs: Seq<(String, String)>, key: Seq<char>)
    requires
        forall|j: int| 0 <= j < pairs.len() ==> pairs[j].0@ != key,
    ensures
        pair_lookup(pairs, key) is None,
    decreases pairs.len(),
{
    if pairs.len() > 0 {
        lemma_pair_lookup_none(pairs.drop_first(), key);
    }
}

proof fn lemma_pair_lookup_set(pairs: Seq<(String, String)>, i: int, p: (String, String), key: Seq<char>)
    requires
        0 <= i < pairs.len(),
        pairs[i].0@ == p.0@,
        forall|j: int| 0 <= j < i ==> pairs[j].0@ != p.0@,
    ensures
        pair_lookup(pairs.update(i, p), key) == if key == p.0@ { Some(p.1@) } else { pair_lookup(pairs, key) },
    decreases i,
{
    if i > 0 {
        lemma_pair_lookup_set(pairs.drop_first(), i - 1, p, key);
        assert(pairs.update(i, p).drop_first() =~= pairs.drop_first().update(i - 1, p));
        assert(pairs.update(i, p)[0] == pairs[0]);
    } else {
        assert(pairs.update(i, p).drop_first() =~= pairs.drop_first());
        assert(pairs.update(i, p)[0] == p);
    }
}

proof fn lemma_pair_lookup_push(pairs: Seq<(String, String)>, p: (String, String), key: Seq<char>)
    requires
        forall|j: int| 0 <= j < pairs.len() ==> pairs[j].0@ != p.0@,
    ensures
        pair_lookup(pairs.push(p), key) == if key == p.0@ { Some(p.1@) } else { pair_lookup(pairs, key) },
    decreases pairs.len(),
{
    if pairs.len() > 0 {
        lemma_pair_lookup_push(pairs.drop_first(), p, key);
        assert(pairs.push(p).drop_first() =~= pairs.drop_first().push(p));
        assert(pairs.push(p)[0] == pairs[0]);
    } else {
        assert(pairs.push(p).drop_first() =~= Seq::<(String, String)>::empty());
        assert(pairs.push(p)[0] == p);
        assert(pair_lookup(Seq::<(String, String)>::empty(), key) is None);
    }
}

/// Stores `value` under `key`, replacing the text of an existing key.
fn store_pair(pairs: &mut Vec<(String, String)>, key: String, value: String)
    ensures
        forall|k: Seq<char>| #[trigger] pair_lookup(final(pairs)@, k)
            == if k == key@ { Some(value@) } else { pair_lookup(old(pairs)@, k) },
{
    let ghost key_view = key@;
    let ghost value_view = value@;
    match find_pair(pairs, key.as_str()) {
        Some(i) => {
            let ghost before = pairs@;
            let p = (key, value);
            proof {
                assert forall|k: Seq<char>| #[trigger] pair_lookup(before.update(i as int, p), k)
                    == if k == key_view { Some(value_view) } else { pair_lookup(before, k) } by {
                    lemma_pair_lookup_set(before, i as int, p, k);
                }
            }
            pairs.set(i, p);
        },
        None => {
            let ghost before = pairs@;
            let p = (key, value);
            proof {
                assert forall|k: Seq<char>| #[trigger] pair_lookup(before.push(p), k)
                    == if k == key_view { Some(value_view) } else { pair_lookup(before, k) } by {
                    lemma_pair_lookup_push(before, p, k);
                }
            }
            pairs.push(p);
        },
    }
}

/// Reads the text stored under `key`.
fn lookup_pair<'a>(pairs: &'a Vec<(String, String)>, key: &str) -> (r: Option<&'a String>)
    ensures
        match r {
            Some(s) => pair_lookup(pairs@, key@) == Some(s@),
            None => pair_lookup(pairs@, key@) is None,
        },
{
    match find_pair(pairs, key) {
        Some(i) => {
            proof {
                lemma_pair_lookup_at(pairs@, key@, i as int);
            }
            Some(&pairs[i].1)
        },
        None => {
            proof {
                lemma_pair_lookup_none(pairs@, key@);
            }
            None
        },
    }
}

impl LanguagePack {
    /// The translation of `key` in this language.
    pub open spec fn translation(&self, key: Seq<char>) -> Option<Seq<char>> {
        pair_lookup(self.translations@, key)
    }

    /// An empty language pack.
    pub fn new(code: &str, name: &str) -> (p: Self)
        ensures
            p.code@ == code@,
            p.name@ == name@,
            p.translations@.len() == 0,
    {
        LanguagePack { name: String::from_str(name), code: String::from_str(code), translations: Vec::new() }
    }

    /// Stores the translation of `key`, replacing an earlier one.
    pub fn add_translation(&mut self, key: &str, value: &str)
        ensures
            final(self).code == old(self).code,
            final(self).name == old(self).name,
            forall|k: Seq<char>| #[trigger] final(self).translation(k)
                == if k == key@ { Some(value@) } else { old(self).translation(k) },
    {
        store_pair(&mut self.translations, String::from_str(key), String::from_str(value));
    }

    /// The translation of `key`, if the pack has one.
    pub fn get(&self, key: &str) -> (r: Option<&String>)
        ensures
            match r {
                Some(s) => self.translation(key@) == Some(s@),
                None => self.translation(key@) is None,
            },
    {
        lookup_pair(&self.translations, key)
    }
}

/// The language packs, keyed by their codes, and the current language.
pub struct LocalizationManager {
    languages: Vec<LanguagePack>,
    current_language: String,
}

/// The pack stored under `code`: the first pack with that code decides.
pub open spec fn pack_lookup(packs: Seq<LanguagePack>, code: Seq<char>) -> Option<LanguagePack>
    decreases packs.len(),
{
    if packs.len() == 0 {
        None
    } else if packs[0].code@ == code {
        Some(packs[0])
    } else {
        pack_lookup(packs.drop_first(), code)
    }
}

proof fn lemma_pack_lookup_at(packs: Seq<LanguagePack>, code: Seq<char>, i: int)
    requires
        0 <= i < packs.len(),
        packs[i].code@ == code,
        forall|j: int| 0 <= j < i ==> packs[j].code@ != code,
    ensures
        pack_lookup(packs, code) == Some(packs[i]),
    decreases i,
{
    if i > 0 {
        lemma_pack_lookup_at(packs.drop_first(), code, i - 1);
    }
}

proof fn lemma_pack_lookup_none(packs: Seq<LanguagePack>, code: Seq<char>)
    requires
        forall|j: int| 0 <= j < packs.len() ==> packs[j].code@ != code,
    ensures
        pack_lookup(packs, code) is None,
    decreases packs.len(),
{
    if packs.len() > 0 {
        lemma_pack_lookup_none(packs.drop_first(), code);
    }
}

proof fn lemma_pack_lookup_set(packs: Seq<LanguagePack>, i: int, p: LanguagePack, code: Seq<char>)
    requires
        0 <= i < packs.len(),
        packs[i].code@ == p.code@,
        forall|j: int| 0 <= j < i ==> packs[j].code@ != p.code@,
    ensures
        pack_lookup(packs.update(i, p), code) == if code == p.code@ { Some(p) } else { pack_lookup(packs, code) },
    decreases i,
{
    if i > 0 {
        lemma_pack_lookup_set(packs.drop_first(), i - 1, p, code);
        assert(packs.update(i, p).drop_first() =~= packs.drop_first().update(i - 1, p));
        assert(packs.update(i, p)[0] == packs[0]);
    } else {
        assert(packs.update(i, p).drop_first() =~= packs.drop_first());
        assert(packs.update(i, p)[0] == p);
    }
}

proof fn lemma_pack_lookup_push(packs: Seq<LanguagePack>, p: LanguagePack, code: Seq<char>)
    requires
        forall|j: int| 0 <= j < packs.len() ==> packs[j].code@ != p.code@,
    ensures
        pack_lookup(packs.push(p), code) == if code == p.code@ { Some(p) } else { pack_lookup(packs, code) },
    decreases packs.len(),
{
    if packs.len() > 0 {
        lemma_pack_lookup_push(packs.drop_first(), p, code);
        assert(packs.push(p).drop_first() =~= packs.drop_first().push(p));
        assert(packs.push(p)[0] == packs[0]);
    } else {
        assert(packs.push(p).drop_first() =~= Seq::<LanguagePack>::empty());
        assert(packs.push(p)[0] == p);
        assert(pack_lookup(Seq::<LanguagePack>::empty(), code) is None);
    }
}

/// Replaces, one argument after the other, every `{name}` by the argument's
/// value.
pub open spec fn with_args(text: Seq<char>, args: Seq<(&str, &str)>) -> Seq<char>
    decreases args.len(),
{
    if args.len() == 0 {
        text
    } else {
        let prev = with_args(text, args.drop_last());
        replace_all(prev, seq!['{'] + args.last().0@ + seq!['}'], args.last().1@)
    }
}

/// The English pack that `init_default_languages` installs.
pub open spec fn default_english(key: Seq<char>) -> Option<Seq<char>> {
    if key == "exit"@ { Some("Exit"@) }
    else if key == "settings"@ { Some("Settings"@) }
    else if key == "help_menu"@ { Some("Help"@) }
    else if key == "view_menu"@ { Some("View"@) }
    else if key == "edit_menu"@ { Some("Edit"@) }
    else if key == "file_menu"@ { Some("File"@) }
    else if key == "app_title"@ { Some("Gable"@) }
    else { None }
}

impl LocalizationManager {
    /// No two registered packs share a code.
    #[verifier::type_invariant]
    closed spec fn codes_unique(&self) -> bool {
        forall|i: int, j: int| 0 <= i < j < self.languages@.len()
            ==> (#[trigger] self.languages@[i]).code@ != (#[trigger] self.languages@[j]).code@
    }

    /// The pack registered under `code`.
    pub closed spec fn language(&self, code: Seq<char>) -> Option<LanguagePack> {
        pack_lookup(self.languages@, code)
    }

    /// The code of the current language.
    pub closed spec fn current(&self) -> Seq<char> {
        self.current_language@
    }

    /// The codes and names of the registered packs, in the order they are kept.
    pub closed spec fn packs(&self) -> Seq<LanguagePack> {
        self.languages@
    }

    /// The translation of `key`: in the current language, else in English,
    /// else the key itself.
    pub open spec fn translate(&self, key: Seq<char>) -> Seq<char> {
        match self.language(self.current()) {
            Some(p) if p.translation(key) is Some => p.translation(key)->0,
            _ => match self.language("en"@) {
                Some(p) if p.translation(key) is Some => p.translation(key)->0,
                _ => key,
            },
        }
    }

    /// A manager with no packs, set to English.
    pub fn new() -> (m: Self)
        ensures
            m.current() == "en"@,
            forall|c: Seq<char>| #[trigger] m.language(c) is None,
    {
        LocalizationManager { languages: Vec::new(), current_language: String::from_str("en") }
    }

    /// Registers a pack under its code, replacing a pack of the same code.
    pub fn add_language(&mut self, lang: LanguagePack)
        ensures
            final(self).current() == old(self).current(),
            forall|c: Seq<char>| #[trigger] final(self).language(c)
                == if c == lang.code@ { Some(lang) } else { old(self).language(c) },
    {
        proof {
            use_type_invariant(&*self);
        }
        let ghost code = lang.code@;
        let found = self.find_language(lang.code.as_str());
        let ghost before = self.languages@;
        let mut langs: Vec<LanguagePack> = Vec::new();
        std::mem::swap(&mut langs, &mut self.languages);
        assert(langs@ == before);
        match found {
            Some(i) => {
                proof {
                    assert forall|c: Seq<char>| #[trigger] pack_lookup(before.update(i as int, lang), c)
                        == if c == code { Some(lang) } else { pack_lookup(before, c) } by {
                        lemma_pack_lookup_set(before, i as int, lang, c);
                    }
                }
                langs.set(i, lang);
                assert(langs@ == before.update(i as int, lang));
                assert forall|a: int, b: int| 0 <= a < b < langs@.len()
                    implies (#[trigger] langs@[a]).code@ != (#[trigger] langs@[b]).code@ by {
                    assert(a != i ==> langs@[a] == before[a]);
                    assert(b != i ==> langs@[b] == before[b]);
                }
                self.languages = langs;
            },
            None => {
                proof {
                    assert forall|c: Seq<char>| #[trigger] pack_lookup(before.push(lang), c)
                        == if c == code { Some(lang) } else { pack_lookup(before, c) } by {
                        lemma_pack_lookup_push(before, lang, c);
                    }
                }
                langs.push(lang);
                assert(langs@ == before.push(lang));
                assert forall|a: int, b: int| 0 <= a < b < langs@.len()
                    implies (#[trigger] langs@[a]).code@ != (#[trigger] langs@[b]).code@ by {
                    assert(a < before.len());
                    assert(langs@[a] == before[a]);
                    assert(b < before.len() ==> langs@[b] == before[b]);
                }
                self.languages = langs;
            },
        }
    }

    fn find_language(&self, code: &str) -> (r: Option<usize>)
        ensures
            match r {
                Some(i) => i < self.languages@.len() && self.language(code@) == Some(self.languages@[i as int])
                    && self.languages@[i as int].code@ == code@
                    && forall|j: int| 0 <= j < i ==> self.languages@[j].code@ != code@,
                None => self.language(code@) is None
                    && forall|j: int| 0 <= j < self.languages@.len() ==> self.languages@[j].code@ != code@,
            },
    {
        let mut i: usize = 0;
        while i < self.languages.len()
            invariant
                i <= self.languages@.len(),
                forall|j: int| 0 <= j < i ==> self.languages@[j].code@ != code@,
            decreases self.languages.len() - i,
        {
            if text_equal(self.languages[i].code.as_str(), code) {
                proof {
                    lemma_pack_lookup_at(self.languages@, code@, i as int);
                }
                return Some(i);
            }
            i = i + 1;
        }
        proof {
            lemma_pack_lookup_none(self.languages@, code@);
        }
        None
    }

    /// Installs the built-in English pack and makes English current.
    pub fn init_default_languages(&mut self)
        ensures
            final(self).current() == "en"@,
            forall|c: Seq<char>| c != "en"@ ==> #[trigger] final(self).language(c) == old(self).language(c),
            final(self).language("en"@) matches Some(p) && p.name@ == "English"@
                && forall|k: Seq<char>| #[trigger] p.translation(k) == default_english(k),
    {
        let mut en = LanguagePack::new("en", "English");
        assert(en.translations@ =~= Seq::<(String, String)>::empty());
        let ghost en0 = en;
        assert forall|k: Seq<char>| #[trigger] en0.translation(k) is None by {
            lemma_pair_lookup_none(en0.translations@, k);
        }
        en.add_translation("app_title", "Gable");
        assert forall|k: Seq<char>| #[trigger] en.translation(k) == (if k == "app_title"@ { Some("Gable"@) } else { None::<Seq<char>> }) by {
            assert(en0.translation(k) is None);
        }
        let ghost e1 = en;
        en.add_translation("file_menu", "File");
        assert forall|k: Seq<char>| #[trigger] en.translation(k) == (if k == "file_menu"@ { Some("File"@) } else { (if k == "app_title"@ { Some("Gable"@) } else { None::<Seq<char>> }) }) by {
            assert(e1.translation(k) == ((if k == "app_title"@ { Some("Gable"@) } else { None::<Seq<char>> })));
        }
        let ghost e2 = en;
        en.add_translation("edit_menu", "Edit");
        assert forall|k: Seq<char>| #[trigger] en.translation(k) == (if k == "edit_menu"@ { Some("Edit"@) } else { (if k == "file_menu"@ { Some("File"@) } else { (if k == "app_title"@ { Some("Gable"@) } else { None::<Seq<char>> }) }) }) by {
            assert(e2.translation(k) == ((if k == "file_menu"@ { Some("File"@) } else { (if k == "app_title"@ { Some("Gable"@) } else { None::<Seq<char>> }) })));
        }
        let ghost e3 = en;
        en.add_translation("view_menu", "View");
        assert forall|k: Seq<char>| #[trigger] en.translation(k) == (if k == "view_menu"@ { Some("View"@) } else { (if k == "edit_menu"@ { Some("Edit"@) } else { (if k == "file_menu"@ { Some("File"@) } else { (if k == "app_title"@ { Some("Gable"@) } else { None::<Seq<char>> }) }) }) }) by {
            assert(e3.translation(k) == ((if k == "edit_menu"@ { Some("Edit"@) } else { (if k == "file_menu"@ { Some("File"@) } else { (if k == "app_title"@ { Some("Gable"@) } else { None::<Seq<char>> }) }) })));
        }
        let ghost e4 = en;
        en.add_translation("help_menu", "Help");
        assert forall|k: Seq<char>| #[trigger] en.translation(k) == (if k == "help_menu"@ { Some("Help"@) } else { (if k == "view_menu"@ { Some("View"@) } else { (if k == "edit_menu"@ { Some("Edit"@) } else { (if k == "file_menu"@ { Some("File"@) } else { (if k == "app_title"@ { Some("Gable"@) } else { None::<Seq<char>> }) }) }) }) }) by {
            assert(e4.translation(k) == ((if k == "view_menu"@ { Some("View"@) } else { (if k == "edit_menu"@ { Some("Edit"@) } else { (if k == "file_menu"@ { Some("File"@) } else { (if k == "app_title"@ { Some("Gable"@) } else { None::<Seq<char>> }) }) }) })));
        }
        let ghost e5 = en;
        en.add_translation("settings", "Settings");
        assert forall|k: Seq<char>| #[trigger] en.translation(k) == (if k == "settings"@ { Some("Settings"@) } else { (if k == "help_menu"@ { Some("Help"@) } else { (if k == "view_menu"@ { Some("View"@) } else { (if k == "edit_menu"@ { Some("Edit"@) } else { (if k == "file_menu"@ { Some("File"@) } else { (if k == "app_title"@ { Some("Gable"@) } else { None::<Seq<char>> }) }) }) }) }) }) by {
            assert(e5.translation(k) == ((if k == "help_menu"@ { Some("Help"@) } else { (if k == "view_menu"@ { Some("View"@) } else { (if k == "edit_menu"@ { Some("Edit"@) } else { (if k == "file_menu"@ { Some("File"@) } else { (if k == "app_title"@ { Some("Gable"@) } else { None::<Seq<char>> }) }) }) }) })));
        }
        let ghost e6 = en;
        en.add_translation("exit", "Exit");
        assert forall|k: Seq<char>| #[trigger] en.translation(k) == (if k == "exit"@ { Some("Exit"@) } else { (if k == "settings"@ { Some("Settings"@) } else { (if k == "help_menu"@ { Some("Help"@) } else { (if k == "view_menu"@ { Some("View"@) } else { (if k == "edit_menu"@ { Some("Edit"@) } else { (if k == "file_menu"@ { Some("File"@) } else { (if k == "app_title"@ { Some("Gable"@) } else { None::<Seq<char>> }) }) }) }) }) }) }) by {
            assert(e6.translation(k) == ((if k == "settings"@ { Some("Settings"@) } else { (if k == "help_menu"@ { Some("Help"@) } else { (if k == "view_menu"@ { Some("View"@) } else { (if k == "edit_menu"@ { Some("Edit"@) } else { (if k == "file_menu"@ { Some("File"@) } else { (if k == "app_title"@ { Some("Gable"@) } else { None::<Seq<char>> }) }) }) }) }) })));
        }
        assert forall|k: Seq<char>| #[trigger] en.translation(k) == default_english(k) by {
            assert(en.translation(k) == (if k == "exit"@ { Some("Exit"@) } else { (if k == "settings"@ { Some("Settings"@) } else { (if k == "help_menu"@ { Some("Help"@) } else { (if k == "view_menu"@ { Some("View"@) } else { (if k == "edit_menu"@ { Some("Edit"@) } else { (if k == "file_menu"@ { Some("File"@) } else { (if k == "app_title"@ { Some("Gable"@) } else { None::<Seq<char>> }) }) }) }) }) }) }));
        }
        let ghost before = *old(self);
        let ghost en_final = en;
        self.add_language(en);
        let ghost mid = *self;
        proof {
            use_type_invariant(&*self);
        }
        self.current_language = String::from_str("en");
        assert(self.languages@ == mid.languages@);
        assert(mid.language("en"@) == Some(en_final));
        assert(self.language("en"@) == Some(en_final));
        assert forall|c: Seq<char>| c != "en"@ implies #[trigger] self.language(c) == before.language(c) by {
            assert(mid.language(c) == before.language(c));
        }
    }

    /// Finishes setting up a manager after its language files were read
    /// (`loaded` tells whether the folder could be read): when it could not,
    /// or when no pack was registered, the built-in English pack is installed
    /// and made current. Afterwards at least one pack is registered.
    pub fn ensure_default_languages(&mut self, loaded: bool)
        ensures
            final(self).packs().len() > 0,
            loaded && old(self).packs().len() > 0 ==> *final(self) == *old(self),
            !(loaded && old(self).packs().len() > 0) ==> {
                &&& final(self).current() == "en"@
                &&& forall|c: Seq<char>| c != "en"@ ==> #[trigger] final(self).language(c) == old(self).language(c)
                &&& final(self).language("en"@) matches Some(p) && p.name@ == "English"@
                    && forall|k: Seq<char>| #[trigger] p.translation(k) == default_english(k)
            },
    {
        if !loaded || self.languages.len() == 0 {
            self.init_default_languages();
        }
        assert(self.language("en"@) is Some ==> self.languages@.len() > 0);
        assert(self.packs().len() > 0);
    }

    /// Makes `code` the current language when a pack is registered under
    /// it; reports whether it was.
    pub fn set_language(&mut self, code: &str) -> (ok: bool)
        ensures
            ok == old(self).language(code@) is Some,
            final(self).current() == if ok { code@ } else { old(self).current() },
            forall|c: Seq<char>| #[trigger] final(self).language(c) == old(self).language(c),
            final(self).packs() == old(self).packs(),
    {
        match self.find_language(code) {
            Some(_) => {
                proof {
                    use_type_invariant(&*self);
                }
                self.current_language = String::from_str(code);
                true
            },
            None => false,
        }
    }

    /// The code of the current language.
    pub fn get_current_language(&self) -> (s: String)
        ensures
            s@ == self.current(),
    {
        self.current_language.clone()
    }

    /// The translation of `key`: in the current language, else in English,
    /// else the key itself.
    pub fn t(&self, key: &str) -> (s: String)
        ensures
            s@ == self.translate(key@),
    {
        if let Some(i) = self.find_language(self.current_language.as_str()) {
            if let Some(text) = self.languages[i].get(key) {
                return text.clone();
            }
        }
        if let Some(i) = self.find_language("en") {
            if let Some(text) = self.languages[i].get(key) {
                return text.clone();
            }
        }
        String::from_str(key)
    }

    /// The translation of `key` with every `{name}` of each argument, in
    /// turn, replaced by its value.
    pub fn t_with_args(&self, key: &str, args: &[(&str, &str)]) -> (s: String)
        ensures
            s@ == with_args(self.translate(key@), args@),
    {
        let first = self.t(key);
        let mut result = chars_of(first.as_str());
        let mut i: usize = 0;
        while i < args.len()
            invariant
                i <= args@.len(),
                result@ == with_args(first@, args@.subrange(0, i as int)),
            decreases args.len() - i,
        {
            let (placeholder, value) = args[i];
            let mut pattern: Vec<char> = Vec::new();
            pattern.push('{');
            let name = chars_of(placeholder);
            let mut k: usize = 0;
            while k < name.len()
                invariant
                    k <= name@.len(),
                    pattern@ == seq!['{'] + name@.subrange(0, k as int),
                decreases name.len() - k,
            {
                pattern.push(name[k]);
                k = k + 1;
                assert(pattern@ =~= seq!['{'] + name@.subrange(0, k as int));
            }
            pattern.push('}');
            assert(name@.subrange(0, name@.len() as int) =~= name@);
            assert(pattern@ =~= seq!['{'] + args@[i as int].0@ + seq!['}']);
            let v = chars_of(value);
            result = replace_chars(result.as_slice(), pattern.as_slice(), v.as_slice());
            assert(args@.subrange(0, i + 1).drop_last() =~= args@.subrange(0, i as int));
            assert(args@.subrange(0, i + 1).last() == args@[i as int]);
            i = i + 1;
        }
        assert(args@.subrange(0, i as int) =~= args@);
        string_of(result.as_slice())
    }

    /// The code and name of every registered pack, in the order they are
    /// kept.
    pub fn get_available_languages(&self) -> (v: Vec<(&String, &String)>)
        ensures
            v@.len() == self.packs().len(),
            forall|i: int| 0 <= i < v@.len() ==> (#[trigger] v@[i]).0 == self.packs()[i].code
                && v@[i].1 == self.packs()[i].name,
            forall|i: int, j: int| 0 <= i < j < v@.len() ==> (#[trigger] v@[i]).0@ != (#[trigger] v@[j]).0@,
            forall|i: int| 0 <= i < v@.len() ==> self.language((#[trigger] v@[i]).0@) == Some(self.packs()[i]),
            forall|c: Seq<char>| #[trigger] self.language(c) is Some
                ==> exists|i: int| 0 <= i < v@.len() && v@[i].0@ == c,
    {
        proof {
            use_type_invariant(self);
            assert forall|i: int| 0 <= i < self.languages@.len() implies
                pack_lookup(self.languages@, (#[trigger] self.languages@[i]).code@) == Some(self.languages@[i]) by {
                lemma_pack_lookup_at(self.languages@, self.languages@[i].code@, i);
            }
            assert forall|c: Seq<char>| #[trigger] pack_lookup(self.languages@, c) is Some
                implies exists|i: int| 0 <= i < self.languages@.len() && self.languages@[i].code@ == c by {
                if !(exists|i: int| 0 <= i < self.languages@.len() && self.languages@[i].code@ == c) {
                    lemma_pack_lookup_none(self.languages@, c);
                }
            }
        }
        let mut v: Vec<(&String, &String)> = Vec::new();
        let mut i: usize = 0;
        while i < self.languages.len()
            invariant
                i <= self.languages@.len(),
                v@.len() == i,
                forall|j: int| 0 <= j < i ==> (#[trigger] v@[j]).0 == self.languages@[j].code
                    && v@[j].1 == self.languages@[j].name,
            decreases self.languages.len() - i,
        {
            v.push((&self.languages[i].code, &self.languages[i].name));
            i = i + 1;
        }
        assert forall|c: Seq<char>| #[trigger] self.language(c) is Some
            implies exists|i: int| 0 <= i < v@.len() && v@[i].0@ == c by {
            let k = choose|k: int| 0 <= k < self.languages@.len() && self.languages@[k].code@ == c;
            assert(v@[k].0@ == c);
        }
        v
    }
}


/// The translation of `key` by `manager`: in its current language, else in
/// English, else the key itself.
pub fn t(manager: &LocalizationManager, key: &str) -> (s: String)
    ensures
        s@ == manager.translate(key@),
{
    manager.t(key)
}

/// The translation of `key` by `manager`, with every `{name}` of each
/// argument, in turn, replaced by its value.
pub fn t_with_args(manager: &LocalizationManager, key: &str, args: &[(&str, &str)]) -> (s: String)
    ensures
        s@ == with_args(manager.translate(key@), args@),
{
    manager.t_with_args(key, args)
}

/// Makes `code` the current language of `manager` when a pack is
/// registered under it; reports whether it was.
pub fn set_language(manager: &mut LocalizationManager, code: &str) -> (ok: bool)
    ensures
        ok == old(manager).language(code@) is Some,
        final(manager).current() == if ok { code@ } else { old(manager).current() },
        forall|c: Seq<char>| #[trigger] final(manager).language(c) == old(manager).language(c),
        final(manager).packs() == old(manager).packs(),
{
    manager.set_language(code)
}

/// The code and name of every pack registered with `manager`.
pub fn get_available_languages(manager: &LocalizationManager) -> (v: Vec<(&String, &String)>)
    ensures
        v@.len() == manager.packs().len(),
        forall|i: int| 0 <= i < v@.len() ==> (#[trigger] v@[i]).0 == manager.packs()[i].code
            && v@[i].1 == manager.packs()[i].name,
        forall|i: int, j: int| 0 <= i < j < v@.len() ==> (#[trigger] v@[i]).0@ != (#[trigger] v@[j]).0@,
        forall|i: int| 0 <= i < v@.len() ==> manager.language((#[trigger] v@[i]).0@) == Some(manager.packs()[i]),
        forall|c: Seq<char>| #[trigger] manager.language(c) is Some
            ==> exists|i: int| 0 <= i < v@.len() && v@[i].0@ == c,
{
    manager.get_available_languages()
}

/// A translation with no arguments is the plain translation.
pub proof fn lemma_no_args_is_plain(manager: LocalizationManager, key: Seq<char>)
    ensures
        with_args(manager.translate(key), Seq::<(&str, &str)>::empty()) == manager.translate(key),
{
}


} // verus!
