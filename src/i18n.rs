//! Per-locale translation catalogs.

use vstd::prelude::*;
use crate::error::TemplateError;
use crate::code::strings_view;
use crate::text::str_eq;
use crate::text_part::{parse_spec, parts_view, PartView, TextPart};

verus! {

/// A translation: context, source text, translated text.
pub type CatalogEntry = (String, String, String);

/// What a locale's entries say: the translation of each (context, source text);
/// a later entry for the same pair overrides an earlier one.
pub open spec fn entries_map(v: Seq<CatalogEntry>) -> Map<(Seq<char>, Seq<char>), Seq<char>>
    decreases v.len(),
{
    if v.len() == 0 {
        Map::empty()
    } else {
        entries_map(v.drop_last()).insert((v.last().0@, v.last().1@), v.last().2@)
    }
}

/// One locale and its translations.
#[derive(Debug)]
pub struct LocaleCatalog {
    pub locale: String,
    pub entries: Vec<CatalogEntry>,
}

/// The loaded catalogs, one per locale, in the order the locales were first seen.
#[derive(Debug)]
pub struct Catalog {
    catalogs: Vec<LocaleCatalog>,
}

/// A catalog as locale names and their translations, in order.
pub closed spec fn catalog_view(c: Catalog) -> Seq<(Seq<char>, Map<(Seq<char>, Seq<char>), Seq<char>>)> {
    locales_view(c.catalogs@)
}

pub open spec fn locales_view(v: Seq<LocaleCatalog>) -> Seq<(Seq<char>, Map<(Seq<char>, Seq<char>), Seq<char>>)> {
    v.map_values(|l: LocaleCatalog| (l.locale@, entries_map(l.entries@)))
}

/// No locale is named twice.
pub open spec fn locales_distinct(v: Seq<(Seq<char>, Map<(Seq<char>, Seq<char>), Seq<char>>)>) -> bool {
    forall|i: int, j: int| 0 <= i < j < v.len() ==> #[trigger] v[i].0 != #[trigger] v[j].0
}

/// The position of `locale` in the catalog, if any.
pub open spec fn locale_index(
    v: Seq<(Seq<char>, Map<(Seq<char>, Seq<char>), Seq<char>>)>,
    locale: Seq<char>,
) -> Option<int> {
    if exists|i: int| 0 <= i < v.len() && v[i].0 == locale {
        Some(choose|i: int| 0 <= i < v.len() && v[i].0 == locale)
    } else {
        None
    }
}

/// The catalog after a translation is recorded.
pub open spec fn catalog_insert(
    v: Seq<(Seq<char>, Map<(Seq<char>, Seq<char>), Seq<char>>)>,
    locale: Seq<char>,
    context: Seq<char>,
    id: Seq<char>,
    text: Seq<char>,
) -> Seq<(Seq<char>, Map<(Seq<char>, Seq<char>), Seq<char>>)> {
    match locale_index(v, locale) {
        Some(i) => v.update(i, (locale, v[i].1.insert((context, id), text))),
        None => v.push((locale, Map::empty().insert((context, id), text))),
    }
}

/// The translations of `text` under `context`: the source locale first, named
/// by the empty string, then each locale that translates it, in catalog order.
pub open spec fn translations_from(
    v: Seq<(Seq<char>, Map<(Seq<char>, Seq<char>), Seq<char>>)>,
    text: Seq<char>,
    context: Seq<char>,
    open: Seq<char>,
    close: Seq<char>,
) -> Option<Seq<(Seq<char>, Seq<PartView>)>>
    decreases v.len(),
{
    if v.len() == 0 {
        match parse_spec(text, open, close) {
            Some(ps) => Some(seq![(Seq::<char>::empty(), ps)]),
            None => None,
        }
    } else {
        match translations_from(v.drop_last(), text, context, open, close) {
            None => None,
            Some(prev) => {
                let (locale, m) = v.last();
                if m.contains_key((context, text)) {
                    match parse_spec(m[(context, text)], open, close) {
                        Some(ps) => Some(prev.push((locale, ps))),
                        None => None,
                    }
                } else {
                    Some(prev)
                }
            },
        }
    }
}

pub open spec fn translations_view(v: Seq<(String, Vec<TextPart>)>) -> Seq<(Seq<char>, Seq<PartView>)> {
    v.map_values(|t: (String, Vec<TextPart>)| (t.0@, parts_view(t.1@)))
}

/// The translation of (context, id) among `entries`, the last entry winning.
fn find_entry(entries: &Vec<CatalogEntry>, context: &str, id: &str) -> (r: Option<usize>)
    ensures
        r is None ==> !entries_map(entries@).contains_key((context@, id@)),
        r matches Some(k) ==> k < entries@.len() && entries_map(entries@).contains_key((context@, id@))
            && entries_map(entries@)[(context@, id@)] == entries@[k as int].2@,
{
    let mut i: usize = entries.len();
    while i > 0
        invariant
            i <= entries@.len(),
            forall|j: int| i <= j < entries@.len() ==> !((#[trigger] entries@[j]).0@ == context@ && entries@[j].1@ == id@),
        decreases i,
    {
        let e = &entries[i - 1];
        if str_eq(e.0.as_str(), context) && str_eq(e.1.as_str(), id) {
            proof {
                lemma_entries_last(entries@, (i - 1) as int, context@, id@);
            }
            return Some(i - 1);
        }
        i = i - 1;
    }
    proof {
        lemma_entries_absent(entries@, context@, id@);
    }
    None
}

proof fn lemma_entries_absent(v: Seq<CatalogEntry>, context: Seq<char>, id: Seq<char>)
    requires
        forall|j: int| 0 <= j < v.len() ==> !((#[trigger] v[j]).0@ == context && v[j].1@ == id),
    ensures
        !entries_map(v).contains_key((context, id)),
    decreases v.len(),
{
    if v.len() > 0 {
        assert forall|j: int| 0 <= j < v.drop_last().len() implies !((#[trigger] v.drop_last()[j]).0@ == context && v.drop_last()[j].1@ == id) by {
            assert(v.drop_last()[j] == v[j]);
        }
        lemma_entries_absent(v.drop_last(), context, id);
    }
}

proof fn lemma_entries_last(v: Seq<CatalogEntry>, k: int, context: Seq<char>, id: Seq<char>)
    requires
        0 <= k < v.len(),
        v[k].0@ == context && v[k].1@ == id,
        forall|j: int| k < j < v.len() ==> !((#[trigger] v[j]).0@ == context && v[j].1@ == id),
    ensures
        entries_map(v).contains_key((context, id)),
        entries_map(v)[(context, id)] == v[k].2@,
    decreases v.len(),
{
    if k < v.len() - 1 {
        assert forall|j: int| k < j < v.drop_last().len() implies !((#[trigger] v.drop_last()[j]).0@ == context && v.drop_last()[j].1@ == id) by {
            assert(v.drop_last()[j] == v[j]);
        }
        lemma_entries_last(v.drop_last(), k, context, id);
    } else {
        assert(v.last() == v[k]);
    }
}

fn insert_into(cats: &mut Vec<LocaleCatalog>, locale: &str, context: &str, id: &str, text: &str)
    requires
        locales_distinct(locales_view(old(cats)@)),
    ensures
        locales_view(final(cats)@) == catalog_insert(
            locales_view(old(cats)@),
            locale@,
            context@,
            id@,
            text@,
        ),
        locales_distinct(locales_view(final(cats)@)),
{
    let ghost v = locales_view(cats@);
    let mut i: usize = 0;
    while i < cats.len()
        invariant
            i <= cats@.len(),
            cats@ == old(cats)@,
            v == locales_view(cats@),
            locales_distinct(v),
            forall|j: int| 0 <= j < i ==> v[j].0 != locale@,
        decreases cats.len() - i,
    {
        if str_eq(cats[i].locale.as_str(), locale) {
            proof {
                assert(v[i as int].0 == locale@);
                let j = choose|j: int| 0 <= j < v.len() && v[j].0 == locale@;
                if j != i {
                    if j < i {
                        assert(v[j].0 != v[i as int].0);
                    } else {
                        assert(v[i as int].0 != v[j].0);
                    }
                }
            }
            let mut cat = cats.remove(i);
            let ghost before = cat.entries@;
            cat.entries.push((context.to_owned(), id.to_owned(), text.to_owned()));
            assert(cat.entries@.drop_last() =~= before);
            cats.insert(i, cat);
            proof {
                assert(locale_index(v, locale@) == Some(i as int));
                assert(locales_view(cats@) =~= catalog_insert(v, locale@, context@, id@, text@));
                assert forall|a: int, b: int| 0 <= a < b < locales_view(cats@).len() implies #[trigger] locales_view(cats@)[a].0 != #[trigger] locales_view(cats@)[b].0 by {
                    assert(v[a].0 != v[b].0);
                }
            }
            return;
        }
        i = i + 1;
    }
    let mut entries: Vec<CatalogEntry> = Vec::new();
    entries.push((context.to_owned(), id.to_owned(), text.to_owned()));
    assert(entries@.drop_last() =~= Seq::<CatalogEntry>::empty());
    let ghost m = entries_map(entries@);
    assert(entries_map(entries@.drop_last()) == entries_map(Seq::<CatalogEntry>::empty()));
    assert(entries_map(Seq::<CatalogEntry>::empty()) == Map::<(Seq<char>, Seq<char>), Seq<char>>::empty());
    assert(m == Map::<(Seq<char>, Seq<char>), Seq<char>>::empty().insert((context@, id@), text@));
    cats.push(LocaleCatalog { locale: locale.to_owned(), entries });
    proof {
        assert(locale_index(v, locale@) is None);
        assert(locales_view(cats@) =~= v.push((locale@, m)));
        assert forall|a: int, b: int| 0 <= a < b < locales_view(cats@).len() implies #[trigger] locales_view(cats@)[a].0 != #[trigger] locales_view(cats@)[b].0 by {
            if b < v.len() {
                assert(v[a].0 != v[b].0);
            }
        }
        assert(locales_view(cats@) =~= catalog_insert(v, locale@, context@, id@, text@));
    }
}


impl Catalog {
    /// No locale is named twice.
    #[verifier::type_invariant]
    spec fn wf(self) -> bool {
        locales_distinct(catalog_view(self))
    }

    /// A catalog with no locale.
    pub fn new() -> (r: Catalog)
        ensures
            catalog_view(r) == Seq::<(Seq<char>, Map<(Seq<char>, Seq<char>), Seq<char>>)>::empty(),
    {
        let r = Catalog { catalogs: Vec::new() };
        assert(catalog_view(r) =~= Seq::<(Seq<char>, Map<(Seq<char>, Seq<char>), Seq<char>>)>::empty());
        r
    }

    /// Records that `locale` translates `id` under `context` as `text`.
    pub fn insert(&mut self, locale: &str, context: &str, id: &str, text: &str)
        ensures
            catalog_view(*final(self)) == catalog_insert(
                catalog_view(*old(self)),
                locale@,
                context@,
                id@,
                text@,
            ),
            locales_distinct(catalog_view(*final(self))),
    {
        proof {
            use_type_invariant(&*self);
        }
        let mut cats: Vec<LocaleCatalog> = Vec::new();
        std::mem::swap(&mut cats, &mut self.catalogs);
        insert_into(&mut cats, locale, context, id, text);
        self.catalogs = cats;
    }

    /// The text in every locale that translates `text` under `context`, split
    /// into parts; the source locale, named by the empty string, comes first.
    pub fn translate_text(&self, text: &str, context: &str, open: &str, close: &str) -> (r: Result<
        Vec<(String, Vec<TextPart>)>,
        TemplateError,
    >)
        requires
            open@.len() > 0,
        ensures
            r matches Ok(v) ==> translations_from(catalog_view(*self), text@, context@, open@, close@)
                == Some(translations_view(v@)),
            r is Err <==> translations_from(catalog_view(*self), text@, context@, open@, close@) is None,
            r matches Err(e) ==> e == TemplateError::UnclosedExpression,
    {
        let ghost v = catalog_view(*self);
        let mut out: Vec<(String, Vec<TextPart>)> = Vec::new();
        assert(v.subrange(0, 0).len() == 0);
        let parts = match TextPart::parse(text, open, close) {
            Ok(ps) => ps,
            Err(e) => {
                proof {
                    lemma_translations_none(v, 0, text@, context@, open@, close@);
                    assert(v.subrange(0, v.len() as int) =~= v);
                }
                return Err(e);
            },
        };
        out.push((String::new(), parts));
        assert(translations_view(out@) =~= seq![(Seq::<char>::empty(), parts_view(parts@))]);
        let mut i: usize = 0;
        while i < self.catalogs.len()
            invariant
                i <= self.catalogs@.len(),
                v == catalog_view(*self),
                open@.len() > 0,
                translations_from(v.subrange(0, i as int), text@, context@, open@, close@) == Some(
                    translations_view(out@),
                ),
            decreases self.catalogs.len() - i,
        {
            let cat = &self.catalogs[i];
            assert(v.subrange(0, i + 1).drop_last() =~= v.subrange(0, i as int));
            assert(v.subrange(0, i + 1).last() == v[i as int]);
            match find_entry(&cat.entries, context, text) {
                Some(k) => {
                    let translated = TextPart::parse(cat.entries[k].2.as_str(), open, close);
                    match translated {
                        Ok(ps) => {
                            let ghost before = out@;
                            out.push((cat.locale.clone(), ps));
                            assert(translations_view(out@) =~= translations_view(before).push((v[i as int].0, parts_view(ps@))));
                        },
                        Err(e) => {
                            proof {
                                lemma_translations_none(v, (i + 1) as int, text@, context@, open@, close@);
                                assert(v.subrange(0, v.len() as int) =~= v);
                            }
                            return Err(e);
                        },
                    }
                },
                None => {},
            }
            i = i + 1;
        }
        assert(v.subrange(0, v.len() as int) =~= v);
        Ok(out)
    }
}

proof fn lemma_translations_none(
    v: Seq<(Seq<char>, Map<(Seq<char>, Seq<char>), Seq<char>>)>,
    k: int,
    text: Seq<char>,
    context: Seq<char>,
    open: Seq<char>,
    close: Seq<char>,
)
    requires
        0 <= k <= v.len(),
        translations_from(v.subrange(0, k), text, context, open, close) is None,
    ensures
        translations_from(v.subrange(0, v.len() as int), text, context, open, close) is None,
    decreases v.len() - k,
{
    if k < v.len() {
        assert(v.subrange(0, k + 1).drop_last() =~= v.subrange(0, k));
        lemma_translations_none(v, k + 1, text, context, open, close);
    }
}

/// The locales, in catalog order, that do not translate `text` under `context`.
pub open spec fn missing_from(
    v: Seq<(Seq<char>, Map<(Seq<char>, Seq<char>), Seq<char>>)>,
    text: Seq<char>,
    context: Seq<char>,
) -> Seq<Seq<char>>
    decreases v.len(),
{
    if v.len() == 0 {
        Seq::empty()
    } else if v.last().1.contains_key((context, text)) {
        missing_from(v.drop_last(), text, context)
    } else {
        missing_from(v.drop_last(), text, context).push(v.last().0)
    }
}

/// A unit of a PO catalog: its context, and for a simple message its source
/// text and translation; `None` stands for a unit that does not read.
pub type PoUnit = Option<(Option<String>, Option<(String, Option<String>)>)>;

/// A unit of a PO catalog, as characters.
pub type PoUnitView = Option<(Option<Seq<char>>, Option<(Seq<char>, Option<Seq<char>>)>)>;

pub open spec fn opt_view(o: Option<String>) -> Option<Seq<char>> {
    match o {
        Some(s) => Some(s@),
        None => None,
    }
}

pub open spec fn unit_view(u: PoUnit) -> PoUnitView {
    match u {
        None => None,
        Some((c, m)) => Some(
            (
                opt_view(c),
                match m {
                    None => None,
                    Some((id, t)) => Some((id@, opt_view(t))),
                },
            ),
        ),
    }
}

pub open spec fn units_view(v: Seq<PoUnit>) -> Seq<PoUnitView> {
    v.map_values(|u: PoUnit| unit_view(u))
}

/// The units of the PO catalog `text`, or `None` when its header does not read.
pub uninterp spec fn po_units_of(text: Seq<char>) -> Option<Seq<PoUnitView>>;

#[verifier::external_type_specification]
#[verifier::external_body]
pub struct ExPoError(poreader::error::Error);

/// Relies on `poreader::PoParser::parse` over the catalog text, and on the
/// units its reader yields: each unit's context and, for a simple message, its
/// source text and translation. The result depends on the text alone.
#[verifier::external_body]
fn po_units(data: &str) -> (r: Result<Vec<PoUnit>, poreader::error::Error>)
    ensures
        r matches Ok(v) ==> po_units_of(data@) == Some(units_view(v@)),
        r is Err ==> po_units_of(data@) is None,
{
    let parser = poreader::PoParser::new();
    let reader = parser.parse(data.as_bytes())?;
    Ok(reader.map(|u| u.ok().map(|u| (u.context().map(|c| c.to_string()), match u.message() {
        poreader::Message::Simple { id, text } => Some((id.clone(), text.clone())),
        poreader::Message::Plural(_) => None,
    }))).collect())
}

/// The catalog after the translations of `units` are recorded for `locale`:
/// each simple message with a translation, under its context or the empty one.
pub open spec fn units_apply(
    v: Seq<(Seq<char>, Map<(Seq<char>, Seq<char>), Seq<char>>)>,
    locale: Seq<char>,
    units: Seq<PoUnitView>,
) -> Seq<(Seq<char>, Map<(Seq<char>, Seq<char>), Seq<char>>)>
    decreases units.len(),
{
    if units.len() == 0 {
        v
    } else {
        let prev = units_apply(v, locale, units.drop_last());
        match units.last() {
            Some((c, Some((id, Some(t))))) => catalog_insert(
                prev,
                locale,
                match c {
                    Some(c) => c,
                    None => Seq::empty(),
                },
                id,
                t,
            ),
            _ => prev,
        }
    }
}

impl Catalog {
    /// The locales, in catalog order, that lack a translation of `text` under
    /// `context`.
    pub fn missing_locales(&self, text: &str, context: &str) -> (r: Vec<String>)
        ensures
            strings_view(r@) == missing_from(catalog_view(*self), text@, context@),
    {
        let ghost v = catalog_view(*self);
        let mut out: Vec<String> = Vec::new();
        let mut i: usize = 0;
        assert(v.subrange(0, 0).len() == 0);
        assert(strings_view(out@) =~= Seq::<Seq<char>>::empty());
        while i < self.catalogs.len()
            invariant
                i <= self.catalogs@.len(),
                v == catalog_view(*self),
                v == locales_view(self.catalogs@),
                strings_view(out@) == missing_from(v.subrange(0, i as int), text@, context@),
            decreases self.catalogs.len() - i,
        {
            assert(v.subrange(0, i + 1).drop_last() =~= v.subrange(0, i as int));
            assert(v.subrange(0, i + 1).last() == v[i as int]);
            let cat = &self.catalogs[i];
            if find_entry(&cat.entries, context, text).is_none() {
                let ghost before = strings_view(out@);
                out.push(cat.locale.clone());
                assert(strings_view(out@) =~= before.push(v[i as int].0));
            }
            i = i + 1;
        }
        assert(v.subrange(0, v.len() as int) =~= v);
        out
    }

    /// Records the translations of PO units for `locale`; when a unit does
    /// not read, nothing is recorded and the catalog is refused.
    pub fn add_units(&mut self, locale: &str, units: &Vec<PoUnit>) -> (r: Result<(), TemplateError>)
        ensures
            r is Err <==> exists|i: int| 0 <= i < units@.len() && (#[trigger] units@[i]) is None,
            r matches Err(e) ==> e == TemplateError::CatalogLoadError && catalog_view(*final(self))
                == catalog_view(*old(self)),
            r is Ok ==> catalog_view(*final(self)) == units_apply(
                catalog_view(*old(self)),
                locale@,
                units_view(units@),
            ),
    {
        let mut k: usize = 0;
        while k < units.len()
            invariant
                k <= units@.len(),
                forall|i: int| 0 <= i < k ==> (#[trigger] units@[i]) is Some,
            decreases units.len() - k,
        {
            if units[k].is_none() {
                return Err(TemplateError::CatalogLoadError);
            }
            k = k + 1;
        }
        let ghost uv = units_view(units@);
        let ghost v0 = catalog_view(*self);
        let mut i: usize = 0;
        assert(uv.subrange(0, 0).len() == 0);
        while i < units.len()
            invariant
                i <= units@.len(),
                uv == units_view(units@),
                catalog_view(*self) == units_apply(v0, locale@, uv.subrange(0, i as int)),
            decreases units.len() - i,
        {
            assert(uv.subrange(0, i + 1).drop_last() =~= uv.subrange(0, i as int));
            assert(uv.subrange(0, i + 1).last() == uv[i as int]);
            match &units[i] {
                Some((c, Some((id, Some(t))))) => {
                    let empty = String::new();
                    let ctx = match c {
                        Some(c) => c,
                        None => &empty,
                    };
                    self.insert(locale, ctx.as_str(), id.as_str(), t.as_str());
                },
                _ => {},
            }
            i = i + 1;
        }
        assert(uv.subrange(0, uv.len() as int) =~= uv);
        Ok(())
    }

    /// Records the translations that the PO catalog `data` gives for `locale`;
    /// a catalog that does not read is refused and records nothing.
    pub fn load_po(&mut self, locale: &str, data: &str) -> (r: Result<(), TemplateError>)
        ensures
            r matches Err(e) ==> e == TemplateError::CatalogLoadError && catalog_view(*final(self))
                == catalog_view(*old(self)),
            po_units_of(data@) is None ==> r is Err,
            po_units_of(data@) matches Some(us) ==> (r is Err <==> exists|i: int|
                0 <= i < us.len() && (#[trigger] us[i]) is None),
            r is Ok ==> po_units_of(data@) is Some && catalog_view(*final(self)) == units_apply(
                catalog_view(*old(self)),
                locale@,
                po_units_of(data@)->0,
            ),
    {
        let units = match po_units(data) {
            Ok(u) => u,
            Err(_) => {
                return Err(TemplateError::CatalogLoadError);
            },
        };
        let r = self.add_units(locale, &units);
        proof {
            let us = units_view(units@);
            assert forall|i: int| 0 <= i < us.len() implies ((#[trigger] us[i]) is None <==> units@[i] is None) by {}
            if r is Err {
                let i = choose|i: int| 0 <= i < units@.len() && (#[trigger] units@[i]) is None;
                assert(us[i] is None);
            }
            if exists|i: int| 0 <= i < us.len() && (#[trigger] us[i]) is None {
                let i = choose|i: int| 0 <= i < us.len() && (#[trigger] us[i]) is None;
                assert(units@[i] is None);
            }
        }
        r
    }
}

} // verus!
