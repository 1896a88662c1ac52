//! User settings: how many instances of each deskling run, the locale and
//! the colour theme.
use vstd::prelude::*;

use crate::ordered_map::{map_of, OrderedMap};

verus! {

#[derive(Debug, Clone, Copy, PartialEq, Eq, Structural)]
pub enum Theme {
    System,
    Light,
    Dark,
}

impl Default for Theme {
    fn default() -> (t: Theme)
        ensures
            t == Theme::System,
    {
        Theme::System
    }
}

/// Every stored quantity is positive.
pub open spec fn quantities_positive(m: Map<Seq<char>, u32>) -> bool {
    forall|k: Seq<char>| #[trigger] m.contains_key(k) ==> m[k] > 0
}

#[derive(Debug)]
pub struct AppSettings {
    /// Instances per deskling slug.
    pub active_desklings: OrderedMap<u32>,
    /// A single active deskling, as older settings files record it.
    pub active_deskling: String,
    pub locale: Option<String>,
    pub theme: Theme,
}

/// The value of [`AppSettings`].
pub struct SettingsView {
    pub active_desklings: Map<Seq<char>, u32>,
    pub active_deskling: Seq<char>,
    pub locale: Option<Seq<char>>,
    pub theme: Theme,
}

impl AppSettings {
    pub open spec fn view(&self) -> SettingsView {
        SettingsView {
            active_desklings: self.active_desklings.view(),
            active_deskling: self.active_deskling@,
            locale: match self.locale {
                Some(l) => Some(l@),
                None => None,
            },
            theme: self.theme,
        }
    }

    pub open spec fn wf(&self) -> bool {
        self.active_desklings.wf()
    }
}

impl Default for AppSettings {
    fn default() -> (s: AppSettings)
        ensures
            s.wf(),
            s.view().active_desklings == Map::<Seq<char>, u32>::empty(),
            s.view().active_deskling == Seq::<char>::empty(),
            s.view().locale is None,
            s.view().theme == Theme::System,
    {
        AppSettings {
            active_desklings: OrderedMap::new(),
            active_deskling: String::new(),
            locale: None,
            theme: Theme::System,
        }
    }
}

/// The quantities of the table form of `active_desklings`: zero quantities
/// are dropped, a repeated slug keeps its last quantity.
pub open spec fn quantities_from_table(pairs: Seq<(String, u32)>) -> Map<Seq<char>, u32> {
    map_of(pairs.filter(|e: (String, u32)| e.1 > 0))
}

/// The quantities of the list form of `active_desklings`: one instance of
/// each listed slug.
pub open spec fn quantities_from_list(slugs: Seq<String>) -> Map<Seq<char>, u32> {
    map_of(slugs.map_values(|s: String| (s, 1u32)))
}

/// Reads the table form of `active_desklings` (`slug = quantity`).
pub fn active_from_table(pairs: Vec<(String, u32)>) -> (m: OrderedMap<u32>)
    ensures
        m.wf(),
        m.view() == quantities_from_table(pairs@),
        quantities_positive(m.view()),
{
    let ghost input = pairs@;
    let ghost f = |e: (String, u32)| e.1 > 0;
    let total = pairs.len();
    let mut rest = pairs;
    let mut m: OrderedMap<u32> = OrderedMap::new();
    let mut i: usize = 0;
    while rest.len() > 0
        invariant
            i + rest@.len() == total,
            input.len() == total,
            rest@ == input.subrange(i as int, total as int),
            f == (|e: (String, u32)| e.1 > 0),
            m.wf(),
            m.view() == map_of(input.subrange(0, i as int).filter(f)),
            quantities_positive(m.view()),
        decreases rest.len(),
    {
        let (slug, q) = rest.remove(0);
        assert(rest@ =~= input.subrange(i + 1, total as int));
        let ghost prefix = input.subrange(0, i + 1);
        assert(prefix.drop_last() =~= input.subrange(0, i as int));
        reveal_with_fuel(Seq::filter, 1);
        if q > 0 {
            let ghost e = (slug, q);
            assert(e == input[i as int]);
            m.insert(slug, q);
            assert(prefix.filter(f) =~= input.subrange(0, i as int).filter(f).push(e));
            assert(prefix.filter(f).drop_last() =~= input.subrange(0, i as int).filter(f));
        } else {
            assert(prefix.filter(f) =~= input.subrange(0, i as int).filter(f));
        }
        i += 1;
    }
    assert(input.subrange(0, total as int) =~= input);
    m
}

/// Reads the list form of `active_desklings` (one instance of each slug).
pub fn active_from_list(slugs: Vec<String>) -> (m: OrderedMap<u32>)
    ensures
        m.wf(),
        m.view() == quantities_from_list(slugs@),
        quantities_positive(m.view()),
{
    let ghost input = slugs@;
    let ghost f = |s: String| (s, 1u32);
    let total = slugs.len();
    let mut rest = slugs;
    let mut m: OrderedMap<u32> = OrderedMap::new();
    let mut i: usize = 0;
    while rest.len() > 0
        invariant
            i + rest@.len() == total,
            input.len() == total,
            rest@ == input.subrange(i as int, total as int),
            f == (|s: String| (s, 1u32)),
            m.wf(),
            m.view() == map_of(input.subrange(0, i as int).map_values(f)),
            quantities_positive(m.view()),
        decreases rest.len(),
    {
        let slug = rest.remove(0);
        assert(rest@ =~= input.subrange(i + 1, total as int));
        let ghost prefix = input.subrange(0, i + 1).map_values(f);
        assert(prefix.drop_last() =~= input.subrange(0, i as int).map_values(f));
        assert(slug == input[i as int]);
        m.insert(slug, 1);
        i += 1;
    }
    assert(input.subrange(0, total as int) =~= input);
    m
}

/// The quantities after the legacy single slug is folded in.
pub open spec fn migrated(s: SettingsView) -> Map<Seq<char>, u32> {
    if s.active_deskling.len() > 0 && !s.active_desklings.contains_key(s.active_deskling) {
        s.active_desklings.insert(s.active_deskling, 1)
    } else {
        s.active_desklings
    }
}

impl AppSettings {
    /// Folds the legacy single active deskling into the quantity table (one
    /// instance, unless the table already names it) and clears it.
    pub fn migrate(&mut self)
        requires
            old(self).wf(),
        ensures
            final(self).wf(),
            final(self).view().active_desklings == migrated(old(self).view()),
            final(self).view().active_deskling == Seq::<char>::empty(),
            final(self).view().locale == old(self).view().locale,
            final(self).view().theme == old(self).view().theme,
            quantities_positive(old(self).view().active_desklings) ==> quantities_positive(
                final(self).view().active_desklings,
            ),
    {
        if !self.active_deskling.as_str().is_empty() {
            let mut legacy = String::new();
            std::mem::swap(&mut legacy, &mut self.active_deskling);
            if self.active_desklings.get(legacy.as_str()).is_none() {
                self.active_desklings.insert(legacy, 1);
            }
        }
        self.active_deskling = String::new();
    }

    /// Runs `quantity` instances of `slug`; zero removes the slug.
    pub fn set_deskling_quantity(&mut self, slug: &str, quantity: u32)
        requires
            old(self).wf(),
        ensures
            final(self).wf(),
            final(self).view().active_desklings == (if quantity == 0 {
                old(self).view().active_desklings.remove(slug@)
            } else {
                old(self).view().active_desklings.insert(slug@, quantity)
            }),
            final(self).view().active_deskling == old(self).view().active_deskling,
            final(self).view().locale == old(self).view().locale,
            final(self).view().theme == old(self).view().theme,
            quantities_positive(old(self).view().active_desklings) ==> quantities_positive(
                final(self).view().active_desklings,
            ),
    {
        if quantity == 0 {
            self.active_desklings.remove(slug);
        } else {
            self.active_desklings.insert(slug.to_owned(), quantity);
        }
    }

    /// Stops running `slug`.
    pub fn disable_deskling(&mut self, slug: &str)
        requires
            old(self).wf(),
        ensures
            final(self).wf(),
            final(self).view().active_desklings == old(self).view().active_desklings.remove(slug@),
            final(self).view().active_deskling == old(self).view().active_deskling,
            final(self).view().locale == old(self).view().locale,
            final(self).view().theme == old(self).view().theme,
            quantities_positive(old(self).view().active_desklings) ==> quantities_positive(
                final(self).view().active_desklings,
            ),
    {
        self.active_desklings.remove(slug);
    }

    pub fn set_locale(&mut self, locale: Option<String>)
        ensures
            final(self).view().locale == (match locale {
                Some(l) => Some(l@),
                None => None::<Seq<char>>,
            }),
            final(self).view().active_desklings == old(self).view().active_desklings,
            final(self).view().active_deskling == old(self).view().active_deskling,
            final(self).view().theme == old(self).view().theme,
            final(self).wf() == old(self).wf(),
    {
        self.locale = locale;
    }

    pub fn set_theme(&mut self, theme: Theme)
        ensures
            final(self).view().theme == theme,
            final(self).view().active_desklings == old(self).view().active_desklings,
            final(self).view().active_deskling == old(self).view().active_deskling,
            final(self).view().locale == old(self).view().locale,
            final(self).wf() == old(self).wf(),
    {
        self.theme = theme;
    }

    /// A copy of the settings.
    pub fn snapshot(&self) -> (s: AppSettings)
        requires
            self.wf(),
        ensures
            s.wf(),
            s.view() == self.view(),
    {
        let mut m: OrderedMap<u32> = OrderedMap::new();
        let entries = self.active_desklings.entries();
        proof {
            self.active_desklings.lemma_entries();
            self.active_desklings.lemma_keys();
        }
        let mut i: usize = 0;
        while i < entries.len()
            invariant
                entries@ == self.active_desklings.entries_view(),
                self.active_desklings.wf(),
                forall|j: int|
                    0 <= j < entries@.len() ==> self.active_desklings.view().contains_key(
                        #[trigger] entries@[j].0@,
                    ) && self.active_desklings.view()[entries@[j].0@] == entries@[j].1,
                i <= entries.len(),
                m.wf(),
                forall|k: Seq<char>| #[trigger]
                    m.view().contains_key(k) ==> self.active_desklings.view().contains_key(k)
                        && m.view()[k] == self.active_desklings.view()[k],
                forall|j: int| 0 <= j < i ==> m.view().contains_key(#[trigger] entries@[j].0@),
            decreases entries.len() - i,
        {
            let key = entries[i].0.clone();
            m.insert(key, entries[i].1);
            i += 1;
        }
        proof {
            self.active_desklings.lemma_keys();
            assert forall|k: Seq<char>| #[trigger] self.active_desklings.view().contains_key(k) implies m.view().contains_key(k) by {
                let j = choose|j: int| 0 <= j < self.active_desklings.keys().len()
                    && self.active_desklings.keys()[j] == k;
                assert(entries@[j].0@ == k);
            }
            assert(m.view() =~= self.active_desklings.view());
        }
        let locale = match &self.locale {
            Some(l) => Some(l.clone()),
            None => None,
        };
        AppSettings {
            active_desklings: m,
            active_deskling: self.active_deskling.clone(),
            locale,
            theme: self.theme,
        }
    }
}

/// Folding the legacy slug in twice changes nothing the second time.
pub proof fn lemma_migrate_idempotent(s: SettingsView)
    ensures
        migrated(
            SettingsView {
                active_desklings: migrated(s),
                active_deskling: Seq::empty(),
                locale: s.locale,
                theme: s.theme,
            },
        ) == migrated(s),
{
}

/// The settings of the running application, kept where they are stored.
#[derive(Debug)]
pub struct SettingsStore {
    path: String,
    inner: AppSettings,
}

impl SettingsStore {
    pub closed spec fn spec_path(&self) -> Seq<char> {
        self.path@
    }

    pub closed spec fn settings(&self) -> SettingsView {
        self.inner.view()
    }

    pub closed spec fn wf(&self) -> bool {
        self.inner.wf()
    }

    /// Holds `settings`, read from (and to be written back to) `path`.
    pub fn new(path: String, settings: AppSettings) -> (s: Self)
        requires
            settings.wf(),
        ensures
            s.wf(),
            s.spec_path() == path@,
            s.settings() == settings.view(),
    {
        SettingsStore { path, inner: settings }
    }

    pub fn path(&self) -> (p: &str)
        ensures
            p@ == self.spec_path(),
    {
        self.path.as_str()
    }

    /// A copy of the current settings.
    pub fn snapshot(&self) -> (s: AppSettings)
        requires
            self.wf(),
        ensures
            s.wf(),
            s.view() == self.settings(),
    {
        self.inner.snapshot()
    }

    pub fn set_deskling_quantity(&mut self, slug: &str, quantity: u32)
        requires
            old(self).wf(),
        ensures
            final(self).wf(),
            final(self).spec_path() == old(self).spec_path(),
            final(self).settings().active_desklings == (if quantity == 0 {
                old(self).settings().active_desklings.remove(slug@)
            } else {
                old(self).settings().active_desklings.insert(slug@, quantity)
            }),
            final(self).settings().active_deskling == old(self).settings().active_deskling,
            final(self).settings().locale == old(self).settings().locale,
            final(self).settings().theme == old(self).settings().theme,
    {
        self.inner.set_deskling_quantity(slug, quantity);
    }

    pub fn disable_deskling(&mut self, slug: &str)
        requires
            old(self).wf(),
        ensures
            final(self).wf(),
            final(self).spec_path() == old(self).spec_path(),
            final(self).settings().active_desklings == old(
                self,
            ).settings().active_desklings.remove(slug@),
            final(self).settings().active_deskling == old(self).settings().active_deskling,
            final(self).settings().locale == old(self).settings().locale,
            final(self).settings().theme == old(self).settings().theme,
    {
        self.inner.disable_deskling(slug);
    }

    pub fn set_locale(&mut self, locale: Option<String>)
        requires
            old(self).wf(),
        ensures
            final(self).wf(),
            final(self).spec_path() == old(self).spec_path(),
            final(self).settings().locale == (match locale {
                Some(l) => Some(l@),
                None => None::<Seq<char>>,
            }),
            final(self).settings().active_desklings == old(self).settings().active_desklings,
            final(self).settings().active_deskling == old(self).settings().active_deskling,
            final(self).settings().theme == old(self).settings().theme,
    {
        self.inner.set_locale(locale);
    }

    pub fn set_theme(&mut self, theme: Theme)
        requires
            old(self).wf(),
        ensures
            final(self).wf(),
            final(self).spec_path() == old(self).spec_path(),
            final(self).settings().theme == theme,
            final(self).settings().active_desklings == old(self).settings().active_desklings,
            final(self).settings().active_deskling == old(self).settings().active_deskling,
            final(self).settings().locale == old(self).settings().locale,
    {
        self.inner.set_theme(theme);
    }
}

} // verus!
