//! The configuration: the schema catalog, with the theme chosen by name
//! among those the configuration offers.

use vstd::prelude::*;
use crate::data::{field_table_view, lemma_lookup_skip, lookup, theme_view, CatalogView, MetaData};
use crate::text::{same_text, views};

verus! {

/// The name of the theme the catalog takes its colors from.
pub const THEME_NAME: &'static str = "mondrian";

/// Why a configuration could not be used.
#[derive(Debug, Clone, Copy, PartialEq, Eq, Structural)]
pub enum ConfigError {
    /// The configuration offers no theme of that name.
    NoSuchTheme,
}

impl ConfigError {
    /// A short message for the user.
    pub fn message(&self) -> String {
        "No such a theme".to_owned()
    }
}

/// The named palettes of a configuration, as mathematical values.
pub open spec fn themes_view(t: Seq<(String, Vec<u8>)>) -> Seq<(Seq<char>, Seq<u8>)> {
    t.map_values(|e: (String, Vec<u8>)| (e.0@, e.1@))
}

/// Each card type paired with the palette color at its position, as far as
/// both lists go.
pub open spec fn paired_theme(cards: Seq<Seq<char>>, colors: Seq<u8>) -> Seq<(Seq<char>, u8)> {
    let n = if cards.len() <= colors.len() { cards.len() } else { colors.len() };
    Seq::new(n, |k: int| (cards[k], colors[k]))
}

/// The position of the theme named `THEME_NAME`, where its lookup finds it.
fn find_theme(themes: &Vec<(String, Vec<u8>)>) -> (r: Option<usize>)
    ensures
        match lookup(themes_view(themes@), THEME_NAME@) {
            Some(colors) => r matches Some(t) && t < themes@.len() && themes@[t as int].1@ == colors,
            None => r is None,
        },
{
    let ghost table = themes_view(themes@);
    let mut t: usize = 0;
    while t < themes.len()
        invariant
            table == themes_view(themes@),
            t <= themes@.len(),
            forall|j: int| 0 <= j < t ==> table[j].0 != THEME_NAME@,
        decreases themes@.len() - t,
    {
        if same_text(themes[t].0.as_str(), THEME_NAME) {
            proof {
                lemma_lookup_skip(table, THEME_NAME@, t as int);
                assert(table.skip(t as int)[0] == table[t as int]);
            }
            return Some(t);
        }
        t = t + 1;
    }
    proof {
        lemma_lookup_skip(table, THEME_NAME@, t as int);
        assert(table.skip(t as int) =~= Seq::<(Seq<char>, Seq<u8>)>::empty());
    }
    None
}

/// A loaded configuration.
pub struct Config {
    metadata: MetaData,
}

impl Config {
    /// The configuration made of the given card types, shape codes and field
    /// lists, colored by the theme named `THEME_NAME` among `themes`.
    pub fn from_tables(
        cards: Vec<String>,
        shapes: Vec<String>,
        fields: Vec<(String, Vec<String>)>,
        themes: &Vec<(String, Vec<u8>)>,
    ) -> (r: Result<Config, ConfigError>)
        ensures
            match lookup(themes_view(themes@), THEME_NAME@) {
                Some(colors) => r matches Ok(c) && c.get_metadata_view() == (CatalogView {
                    cards: views(cards@),
                    shapes: views(shapes@),
                    fields: field_table_view(fields@),
                    theme: paired_theme(views(cards@), colors),
                }),
                None => r == Err::<Config, ConfigError>(ConfigError::NoSuchTheme),
            },
    {
        let t = match find_theme(themes) {
            Some(t) => t,
            None => return Err(ConfigError::NoSuchTheme),
        };
        let colors = &themes[t].1;
        let ghost cv = views(cards@);
        let mut theme: Vec<(String, u8)> = Vec::new();
        let mut k: usize = 0;
        while k < cards.len() && k < colors.len()
            invariant
                cv == views(cards@),
                k <= cards@.len(),
                k <= colors@.len(),
                theme_view(theme@) == paired_theme(cv, colors@).take(k as int),
            decreases cards@.len() - k,
        {
            let ghost before = theme_view(theme@);
            theme.push((cards[k].as_str().to_owned(), colors[k]));
            assert(theme_view(theme@) =~= before.push((cv[k as int], colors@[k as int])));
            k = k + 1;
            assert(theme_view(theme@) =~= paired_theme(cv, colors@).take(k as int));
        }
        assert(paired_theme(cv, colors@).take(k as int) =~= paired_theme(cv, colors@));
        Ok(Config { metadata: MetaData::new(cards, shapes, fields, theme) })
    }

    /// The catalog, as a mathematical value.
    pub closed spec fn get_metadata_view(&self) -> CatalogView {
        self.metadata@
    }

    pub fn get_metadata(&self) -> (r: &MetaData)
        ensures
            r@ == self.get_metadata_view(),
    {
        &self.metadata
    }
}

} // verus!
