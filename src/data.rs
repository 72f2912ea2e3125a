//! The card and schema data model: cards with a type, a shape code and JSON
//! content held as lines; the schema catalog of card types, shape codes,
//! field names and colors; and the card store that a session edits.

use vstd::prelude::*;
use crate::json::{json_object_keys, object_keys, pretty_json, reformat_json};
use crate::text::{index_of, join_lines, joined, lemma_index_of, same_text, split_lines, split_text, views};

verus! {

/// A card of the store.
#[derive(Debug, Clone)]
pub struct Item {
    title: String,
    shape: String,
    lines: Vec<String>,
}

/// A card, as a mathematical value: its type, its shape code and the lines
/// of its content.
pub struct ItemView {
    pub title: Seq<char>,
    pub shape: Seq<char>,
    pub lines: Seq<Seq<char>>,
}

impl View for Item {
    type V = ItemView;

    closed spec fn view(&self) -> ItemView {
        ItemView { title: self.title@, shape: self.shape@, lines: views(self.lines@) }
    }
}

/// The lines that `t` becomes once reformatted: serde_json's pretty layout
/// where `t` is JSON, else `t` itself as one line.
pub open spec fn format_lines(t: Seq<char>) -> Seq<Seq<char>> {
    match pretty_json(t) {
        Some(p) => split_lines(p),
        None => seq![t],
    }
}

/// JSON text laid out by serde_json's pretty printer and cut into lines;
/// text that is not JSON comes back as one line.
pub fn format_json(input: &str) -> (r: Vec<String>)
    ensures
        views(r@) == format_lines(input@),
{
    match reformat_json(input) {
        Some(formatted) => split_text(formatted.as_str()),
        None => {
            let mut r: Vec<String> = Vec::new();
            r.push(input.to_owned());
            assert(views(r@) =~= seq![input@]);
            r
        },
    }
}

/// A copy of the lines.
pub fn copy_lines(lines: &[String]) -> (r: Vec<String>)
    ensures
        views(r@) == views(lines@),
{
    let mut r: Vec<String> = Vec::new();
    let mut i: usize = 0;
    while i < lines.len()
        invariant
            i <= lines@.len(),
            views(r@) == views(lines@).take(i as int),
        decreases lines@.len() - i,
    {
        let ghost before = views(r@);
        let line = lines[i].as_str().to_owned();
        assert(line@ == lines@[i as int]@);
        r.push(line);
        assert(views(r@) =~= before.push(line@));
        i = i + 1;
        assert(views(r@) =~= views(lines@).take(i as int));
    }
    assert(views(lines@).take(lines@.len() as int) =~= views(lines@));
    r
}

impl Item {
    pub fn new(title: String, shape: String, lines: Vec<String>) -> (r: Item)
        ensures
            r@ == (ItemView { title: title@, shape: shape@, lines: views(lines@) }),
    {
        Item { title, shape, lines }
    }

    pub fn get_title(&self) -> (r: &String)
        ensures
            r@ == self@.title,
    {
        &self.title
    }

    pub fn get_shape(&self) -> (r: &String)
        ensures
            r@ == self@.shape,
    {
        &self.shape
    }

    pub fn get_lines(&self) -> (r: &Vec<String>)
        ensures
            views(r@) == self@.lines,
    {
        &self.lines
    }

    pub fn get_line(&self, idx: usize) -> (r: Option<&String>)
        ensures
            idx < self@.lines.len() ==> (r matches Some(l) && l@ == self@.lines[idx as int]),
            idx >= self@.lines.len() ==> r is None,
    {
        if idx < self.lines.len() {
            Some(&self.lines[idx])
        } else {
            None
        }
    }

    pub fn set_title(&mut self, title: String)
        ensures
            final(self)@ == (ItemView { title: title@, ..old(self)@ }),
    {
        self.title = title;
    }

    pub fn set_shape(&mut self, shape: String)
        ensures
            final(self)@ == (ItemView { shape: shape@, ..old(self)@ }),
    {
        self.shape = shape;
    }

    pub fn set_lines(&mut self, lines: &Vec<String>)
        ensures
            final(self)@ == (ItemView { lines: views(lines@), ..old(self)@ }),
    {
        self.lines = copy_lines(lines.as_slice());
    }

    /// Replaces the content with the given lines, joined and reformatted
    /// (see `format_json`).
    pub fn set_lines_and_format(&mut self, lines: &[String])
        ensures
            final(self)@ == (ItemView { lines: format_lines(joined(views(lines@))), ..old(self)@ }),
    {
        let text = join_lines(lines);
        self.lines = format_json(text.as_str());
    }
}

/// The shape code of a card that takes a full row: the cards of the
/// catalog's first type are created with it.
pub const FULL_ROW_SHAPE: &'static str = "1x8";

/// A color of the catalog's theme.
#[derive(Debug, Clone, Copy, PartialEq, Eq, Structural)]
pub enum CardColor {
    /// An entry of the terminal's indexed palette.
    Indexed(u8),
    /// The color of a card type that the theme does not name.
    Gray,
}

/// The schema catalog: card types and shape codes in menu order, the field
/// names of each card type (a trailing `?` marks a field as optional), and a
/// palette color for each card type.
#[derive(Debug, Clone)]
pub struct MetaData {
    cards: Vec<String>,
    shapes: Vec<String>,
    fields: Vec<(String, Vec<String>)>,
    theme: Vec<(String, u8)>,
}

/// The catalog, as a mathematical value.
pub struct CatalogView {
    pub cards: Seq<Seq<char>>,
    pub shapes: Seq<Seq<char>>,
    pub fields: Seq<(Seq<char>, Seq<Seq<char>>)>,
    pub theme: Seq<(Seq<char>, u8)>,
}

pub open spec fn field_table_view(f: Seq<(String, Vec<String>)>) -> Seq<(Seq<char>, Seq<Seq<char>>)> {
    f.map_values(|e: (String, Vec<String>)| (e.0@, views(e.1@)))
}

pub open spec fn theme_view(t: Seq<(String, u8)>) -> Seq<(Seq<char>, u8)> {
    t.map_values(|e: (String, u8)| (e.0@, e.1))
}

impl View for MetaData {
    type V = CatalogView;

    closed spec fn view(&self) -> CatalogView {
        CatalogView {
            cards: views(self.cards@),
            shapes: views(self.shapes@),
            fields: field_table_view(self.fields@),
            theme: theme_view(self.theme@),
        }
    }
}

/// The value of the first entry whose key is `key`.
pub open spec fn lookup<V>(entries: Seq<(Seq<char>, V)>, key: Seq<char>) -> Option<V>
    decreases entries.len(),
{
    if entries.len() == 0 {
        None
    } else if entries[0].0 == key {
        Some(entries[0].1)
    } else {
        lookup(entries.drop_first(), key)
    }
}

pub(crate) proof fn lemma_lookup_skip<V>(entries: Seq<(Seq<char>, V)>, key: Seq<char>, i: int)
    requires
        0 <= i <= entries.len(),
        forall|j: int| 0 <= j < i ==> entries[j].0 != key,
    ensures
        lookup(entries, key) == lookup(entries.skip(i), key),
    decreases i,
{
    if i > 0 {
        let t = entries.drop_first();
        assert forall|j: int| 0 <= j < i - 1 implies t[j].0 != key by {
            assert(t[j] == entries[j + 1]);
        }
        lemma_lookup_skip(t, key, i - 1);
        assert(t.skip(i - 1) =~= entries.skip(i));
    } else {
        assert(entries.skip(0) =~= entries);
    }
}

/// Whether a field name is marked optional.
pub open spec fn is_optional(field: Seq<char>) -> bool {
    field.len() > 0 && field.last() == '?'
}

/// The JSON key that a field name stands for: the name without its `?`.
pub open spec fn field_key(field: Seq<char>) -> Seq<char> {
    if is_optional(field) {
        field.drop_last()
    } else {
        field
    }
}

/// One line of a new card's content: the field's key mapped to an empty
/// string, four spaces in, with a comma unless it is the last.
pub open spec fn skeleton_line(field: Seq<char>, last: bool) -> Seq<char> {
    seq![' ', ' ', ' ', ' ', '"'] + field_key(field) + seq!['"', ':', ' ', '"', '"'] + if last {
        Seq::empty()
    } else {
        seq![',']
    }
}

/// The content of a new card with the given fields: a JSON object in which
/// each field's key maps to an empty string.
pub open spec fn skeleton(fields: Seq<Seq<char>>) -> Seq<Seq<char>> {
    seq![seq!['{']] + Seq::new(fields.len(), |k: int| skeleton_line(fields[k], k == fields.len() - 1))
        + seq![seq!['}']]
}

/// Why a card could not be created.
#[derive(Debug, Clone, Copy, PartialEq, Eq, Structural)]
pub enum CreateError {
    /// The shape index names no shape code of the catalog.
    UnknownShape,
    /// The card index names no card type of the catalog.
    UnknownCardType,
    /// The catalog lists no fields for the card type.
    NoFields,
}

/// Why content failed validation.
#[derive(Debug, Clone, Copy, PartialEq, Eq, Structural)]
pub enum ValidationError {
    /// The content is not a JSON object.
    InvalidJson,
    /// The catalog lists no fields for the card type.
    UnknownCardType,
    /// A field that is not optional has no key in the object.
    MissingField,
}

impl ValidationError {
    /// A short message for the user.
    pub fn message(&self) -> String {
        match self {
            ValidationError::InvalidJson => "Invalid json format!".to_owned(),
            ValidationError::UnknownCardType => "No such field".to_owned(),
            ValidationError::MissingField => "Missing necessary field!".to_owned(),
        }
    }
}

/// The card that the catalog creates for card index `c` and shape index `s`:
/// a card of the first type takes a full row whatever `s` is.
pub open spec fn created_item(cat: CatalogView, c: int, s: int) -> Result<ItemView, CreateError> {
    if c != 0 && !(0 <= s < cat.shapes.len()) {
        Err(CreateError::UnknownShape)
    } else if !(0 <= c < cat.cards.len()) {
        Err(CreateError::UnknownCardType)
    } else {
        match lookup(cat.fields, cat.cards[c]) {
            None => Err(CreateError::NoFields),
            Some(fields) => Ok(
                ItemView {
                    title: cat.cards[c],
                    shape: if c == 0 { FULL_ROW_SHAPE@ } else { cat.shapes[s] },
                    lines: skeleton(fields),
                },
            ),
        }
    }
}

/// Whether every field that is not optional has its key among `keys`.
pub open spec fn has_required(fields: Seq<Seq<char>>, keys: Set<Seq<char>>) -> bool {
    forall|k: int| 0 <= k < fields.len() && !is_optional(#[trigger] fields[k]) ==> keys.contains(fields[k])
}

/// The outcome of checking content as that of a card of type `ty`, given
/// the keys of the object it holds (`None`: it holds no JSON object).
pub open spec fn keys_validation(cat: CatalogView, keys: Option<Set<Seq<char>>>, ty: Seq<char>) -> Result<(), ValidationError> {
    match keys {
        None => Err(ValidationError::InvalidJson),
        Some(keys) => match lookup(cat.fields, ty) {
            None => Err(ValidationError::UnknownCardType),
            Some(fields) => if has_required(fields, keys) {
                Ok(())
            } else {
                Err(ValidationError::MissingField)
            },
        },
    }
}

/// The outcome of checking `text` as the content of a card of type `ty`.
pub open spec fn validation(cat: CatalogView, text: Seq<char>, ty: Seq<char>) -> Result<(), ValidationError> {
    keys_validation(cat, json_object_keys(text), ty)
}

pub open spec fn opt_keys_view(keys: Option<Vec<String>>) -> Option<Set<Seq<char>>> {
    match keys {
        Some(k) => Some(views(k@).to_set()),
        None => None,
    }
}

/// The shape code that comes after `shape` in the catalog's order, from the
/// last back to the first; a code the catalog does not list counts as the
/// first.
pub open spec fn next_shape(cat: CatalogView, shape: Seq<char>) -> Seq<char>
    recommends
        cat.shapes.len() > 0,
{
    let i = match index_of(cat.shapes, shape) {
        Some(i) => i,
        None => 0,
    };
    cat.shapes[(i + 1) % (cat.shapes.len() as int)]
}

/// Whether `field` ends with the optional marker.
fn ends_with_marker(field: &str) -> (r: bool)
    ensures
        r == is_optional(field@),
{
    let n = field.unicode_len();
    n > 0 && field.get_char(n - 1) == '?'
}

/// Whether `key` is one of `keys`.
fn contains_text(keys: &Vec<String>, key: &str) -> (r: bool)
    ensures
        r == views(keys@).to_set().contains(key@),
{
    let mut i: usize = 0;
    while i < keys.len()
        invariant
            i <= keys@.len(),
            forall|j: int| 0 <= j < i ==> keys@[j]@ != key@,
        decreases keys@.len() - i,
    {
        if same_text(keys[i].as_str(), key) {
            assert(views(keys@)[i as int] == key@);
            return true;
        }
        i = i + 1;
    }
    proof {
        if views(keys@).to_set().contains(key@) {
            let j = choose|j: int| 0 <= j < views(keys@).len() && views(keys@)[j] == key@;
            assert(keys@[j]@ == key@);
        }
    }
    false
}

/// The content lines of a new card with the given fields (see `skeleton`).
fn skeleton_lines(fields: &Vec<String>) -> (r: Vec<String>)
    ensures
        views(r@) == skeleton(views(fields@)),
{
    let ghost fv = views(fields@);
    let ghost body = Seq::new(fv.len(), |k: int| skeleton_line(fv[k], k == fv.len() - 1));
    let mut strs: Vec<String> = Vec::new();
    let open = "{".to_owned();
    proof {
        reveal_strlit("{");
        assert(open@ =~= seq!['{']);
    }
    strs.push(open);
    assert(views(strs@) =~= seq![seq!['{']] + body.take(0));
    let n = fields.len();
    let mut index: usize = 0;
    while index < n
        invariant
            n == fields@.len(),
            fv == views(fields@),
            body == Seq::new(fv.len(), |k: int| skeleton_line(fv[k], k == fv.len() - 1)),
            index <= n,
            views(strs@) == seq![seq!['{']] + body.take(index as int),
        decreases n - index,
    {
        let field = fields[index].as_str();
        let key = if ends_with_marker(field) {
            field.substring_char(0, field.unicode_len() - 1)
        } else {
            field
        };
        assert(key@ == field_key(fv[index as int]));
        let mut line = "    \"".to_owned();
        line.append(key);
        line.append("\": \"\"");
        if index != n - 1 {
            line.append(",");
        }
        proof {
            reveal_strlit("    \"");
            reveal_strlit("\": \"\"");
            reveal_strlit(",");
            assert(line@ =~= skeleton_line(fv[index as int], index == n - 1));
        }
        let ghost before = views(strs@);
        strs.push(line);
        index = index + 1;
        assert(views(strs@) =~= before.push(line@));
        assert(views(strs@) =~= seq![seq!['{']] + body.take(index as int));
    }
    let ghost before = views(strs@);
    let close = "}".to_owned();
    proof {
        reveal_strlit("}");
        assert(close@ =~= seq!['}']);
    }
    strs.push(close);
    proof {
        assert(body.take(n as int) =~= body);
        assert(views(strs@) =~= before.push(seq!['}']));
        assert(views(strs@) =~= skeleton(fv));
    }
    strs
}

impl MetaData {
    pub fn new(cards: Vec<String>, shapes: Vec<String>, fields: Vec<(String, Vec<String>)>, theme: Vec<(String, u8)>) -> (r: MetaData)
        ensures
            r@ == (CatalogView {
                cards: views(cards@),
                shapes: views(shapes@),
                fields: field_table_view(fields@),
                theme: theme_view(theme@),
            }),
    {
        MetaData { cards, shapes, fields, theme }
    }

    pub fn get_cards(&self) -> (r: &Vec<String>)
        ensures
            views(r@) == self@.cards,
    {
        &self.cards
    }

    pub fn get_shapes(&self) -> (r: &Vec<String>)
        ensures
            views(r@) == self@.shapes,
    {
        &self.shapes
    }

    pub fn get_fields(&self) -> (r: &Vec<(String, Vec<String>)>)
        ensures
            field_table_view(r@) == self@.fields,
    {
        &self.fields
    }

    pub fn get_card(&self, idx: usize) -> (r: Option<&String>)
        ensures
            idx < self@.cards.len() ==> (r matches Some(c) && c@ == self@.cards[idx as int]),
            idx >= self@.cards.len() ==> r is None,
    {
        if idx < self.cards.len() {
            Some(&self.cards[idx])
        } else {
            None
        }
    }

    pub fn get_shape(&self, idx: usize) -> (r: Option<&String>)
        ensures
            idx < self@.shapes.len() ==> (r matches Some(s) && s@ == self@.shapes[idx as int]),
            idx >= self@.shapes.len() ==> r is None,
    {
        if idx < self.shapes.len() {
            Some(&self.shapes[idx])
        } else {
            None
        }
    }

    /// The field names of a card type.
    pub fn get_field(&self, card_type: &str) -> (r: Option<&Vec<String>>)
        ensures
            match lookup(self@.fields, card_type@) {
                Some(fields) => r matches Some(f) && views(f@) == fields,
                None => r is None,
            },
    {
        let ghost table = self@.fields;
        let mut i: usize = 0;
        while i < self.fields.len()
            invariant
                table == self@.fields,
                table == field_table_view(self.fields@),
                i <= self.fields@.len(),
                forall|j: int| 0 <= j < i ==> table[j].0 != card_type@,
            decreases self.fields@.len() - i,
        {
            if same_text(self.fields[i].0.as_str(), card_type) {
                proof {
                    lemma_lookup_skip(table, card_type@, i as int);
                    assert(table.skip(i as int)[0] == table[i as int]);
                }
                return Some(&self.fields[i].1);
            }
            i = i + 1;
        }
        proof {
            lemma_lookup_skip(table, card_type@, i as int);
            assert(table.skip(i as int) =~= Seq::<(Seq<char>, Seq<Seq<char>>)>::empty());
        }
        None
    }

    pub fn count_shapes(&self) -> (r: usize)
        ensures
            r == self@.shapes.len(),
    {
        self.shapes.len()
    }

    pub fn count_cards(&self) -> (r: usize)
        ensures
            r == self@.cards.len(),
    {
        self.cards.len()
    }

    /// The position of a shape code in the catalog's order; 0 for a code the
    /// catalog does not list.
    pub fn index_of_shape(&self, shape: &str) -> (r: usize)
        ensures
            match index_of(self@.shapes, shape@) {
                Some(i) => r == i,
                None => r == 0,
            },
    {
        let ghost sv = self@.shapes;
        let mut i: usize = 0;
        while i < self.shapes.len()
            invariant
                sv == self@.shapes,
                sv == views(self.shapes@),
                i <= self.shapes@.len(),
                forall|j: int| 0 <= j < i ==> sv[j] != shape@,
            decreases self.shapes@.len() - i,
        {
            if same_text(self.shapes[i].as_str(), shape) {
                proof {
                    lemma_index_of(sv, shape@, i as int);
                }
                return i;
            }
            i = i + 1;
        }
        proof {
            lemma_index_of(sv, shape@, i as int);
        }
        0
    }

    pub fn get_theme(&self) -> (r: &Vec<(String, u8)>)
        ensures
            theme_view(r@) == self@.theme,
    {
        &self.theme
    }

    /// The theme's color for a card type; gray for a type it does not name.
    pub fn get_card_color(&self, card: &str) -> (r: CardColor)
        ensures
            r == match lookup(self@.theme, card@) {
                Some(i) => CardColor::Indexed(i),
                None => CardColor::Gray,
            },
    {
        let ghost table = self@.theme;
        let mut i: usize = 0;
        while i < self.theme.len()
            invariant
                table == self@.theme,
                table == theme_view(self.theme@),
                i <= self.theme@.len(),
                forall|j: int| 0 <= j < i ==> table[j].0 != card@,
            decreases self.theme@.len() - i,
        {
            if same_text(self.theme[i].0.as_str(), card) {
                proof {
                    lemma_lookup_skip(table, card@, i as int);
                    assert(table.skip(i as int)[0] == table[i as int]);
                }
                return CardColor::Indexed(self.theme[i].1);
            }
            i = i + 1;
        }
        proof {
            lemma_lookup_skip(table, card@, i as int);
            assert(table.skip(i as int) =~= Seq::<(Seq<char>, u8)>::empty());
        }
        CardColor::Gray
    }

    /// A new card of card type `card_index`, with shape code `shape_index`
    /// (a card of the first type takes a full row), whose content maps each
    /// of the type's fields to an empty string.
    pub fn create_item(&self, card_index: usize, shape_index: usize) -> (r: Result<Item, CreateError>)
        ensures
            match created_item(self@, card_index as int, shape_index as int) {
                Ok(v) => r matches Ok(item) && item@ == v,
                Err(e) => r == Err::<Item, CreateError>(e),
            },
    {
        let shape = if card_index == 0 {
            FULL_ROW_SHAPE
        } else {
            match self.get_shape(shape_index) {
                Some(s) => s.as_str(),
                None => return Err(CreateError::UnknownShape),
            }
        };
        let card = match self.get_card(card_index) {
            Some(c) => c,
            None => return Err(CreateError::UnknownCardType),
        };
        let fields = match self.get_field(card.as_str()) {
            Some(f) => f,
            None => return Err(CreateError::NoFields),
        };
        let lines = skeleton_lines(fields);
        Ok(Item { title: card.as_str().to_owned(), shape: shape.to_owned(), lines })
    }

    /// Checks content as that of a card of type `card_type`, given the keys
    /// of the object the content holds (`None`: it holds no JSON object).
    pub fn check_keys(&self, keys: &Option<Vec<String>>, card_type: &str) -> (r: Result<(), ValidationError>)
        ensures
            r == keys_validation(self@, opt_keys_view(*keys), card_type@),
    {
        let present = match keys {
            Some(k) => k,
            None => return Err(ValidationError::InvalidJson),
        };
        let fields = match self.get_field(card_type) {
            Some(f) => f,
            None => return Err(ValidationError::UnknownCardType),
        };
        let ghost fv = views(fields@);
        let mut i: usize = 0;
        while i < fields.len()
            invariant
                fv == views(fields@),
                lookup(self@.fields, card_type@) == Some(fv),
                opt_keys_view(*keys) == Some(views(present@).to_set()),
                i <= fields@.len(),
                forall|k: int| 0 <= k < i && !is_optional(#[trigger] fv[k]) ==> views(present@).to_set().contains(fv[k]),
            decreases fields@.len() - i,
        {
            let field = fields[i].as_str();
            if !ends_with_marker(field) && !contains_text(present, field) {
                assert(!is_optional(fv[i as int]) && !views(present@).to_set().contains(fv[i as int]));
                return Err(ValidationError::MissingField);
            }
            i = i + 1;
        }
        Ok(())
    }

    /// Checks `json_str` as the content of a card of type `card_type`: it
    /// must hold a JSON object with a key for every field of the type that
    /// is not optional.
    pub fn is_valid(&self, json_str: &str, card_type: &str) -> (r: Result<(), ValidationError>)
        ensures
            r == validation(self@, json_str@, card_type@),
    {
        let keys = object_keys(json_str);
        self.check_keys(&keys, card_type)
    }
}

} // verus!

verus! {

/// The catalog together with the card store it describes.
#[derive(Debug, Clone)]
pub struct Data {
    pub metadata: MetaData,
    pub items: Vec<Item>,
}

/// The cards of a store, as mathematical values.
pub open spec fn item_views(items: Seq<Item>) -> Seq<ItemView> {
    items.map_values(|it: Item| it@)
}

/// The title of the profile card.
pub const PROFILE_TITLE: &'static str = "Profile";

/// The shape code of the profile card.
pub const PROFILE_SHAPE: &'static str = "4x4";

/// The shape code of a stored card that names none.
pub const DEFAULT_SHAPE: &'static str = "2x2";

/// The shape code a stored card of type `title` gets: a full row for the
/// catalog's first type, else the one it names, else the default.
pub open spec fn stored_shape(cat: CatalogView, title: Seq<char>, declared: Option<Seq<char>>) -> Seq<char> {
    if cat.cards.len() > 0 && title == cat.cards[0] {
        FULL_ROW_SHAPE@
    } else {
        match declared {
            Some(s) => s,
            None => DEFAULT_SHAPE@,
        }
    }
}

/// One entry of a stored document's showcase: the card's type, the shape
/// code its content names if any, and its content as JSON text.
pub struct ShowcaseEntry {
    pub title: String,
    pub shape: Option<String>,
    pub content: String,
}

pub open spec fn opt_view(s: Option<String>) -> Option<Seq<char>> {
    match s {
        Some(t) => Some(t@),
        None => None,
    }
}

/// The card that a showcase entry becomes.
pub open spec fn stored_item(cat: CatalogView, e: ShowcaseEntry) -> ItemView {
    ItemView {
        title: e.title@,
        shape: stored_shape(cat, e.title@, opt_view(e.shape)),
        lines: format_lines(e.content@),
    }
}

/// The profile card that stored profile content becomes.
pub open spec fn stored_profile(profile: Seq<char>) -> ItemView {
    ItemView { title: PROFILE_TITLE@, shape: PROFILE_SHAPE@, lines: format_lines(profile) }
}

/// The card store of a stored document: the profile card first, then one
/// card per showcase entry, in order, each with its content reformatted.
pub fn parse_data(metadata: &MetaData, profile: &str, showcase: &[ShowcaseEntry]) -> (r: Vec<Item>)
    ensures
        item_views(r@) == seq![stored_profile(profile@)] + showcase@.map_values(
            |e: ShowcaseEntry| stored_item(metadata@, e),
        ),
{
    let ghost target = seq![stored_profile(profile@)] + showcase@.map_values(
        |e: ShowcaseEntry| stored_item(metadata@, e),
    );
    let mut items: Vec<Item> = Vec::new();
    items.push(Item { title: PROFILE_TITLE.to_owned(), shape: PROFILE_SHAPE.to_owned(), lines: format_json(profile) });
    assert(item_views(items@) =~= target.take(1));
    let mut k: usize = 0;
    while k < showcase.len()
        invariant
            k <= showcase@.len(),
            target == seq![stored_profile(profile@)] + showcase@.map_values(
                |e: ShowcaseEntry| stored_item(metadata@, e),
            ),
            item_views(items@) == target.take(k + 1),
        decreases showcase@.len() - k,
    {
        let entry = &showcase[k];
        let full_row = match metadata.get_card(0) {
            Some(first) => same_text(first.as_str(), entry.title.as_str()),
            None => false,
        };
        let shape = if full_row {
            FULL_ROW_SHAPE.to_owned()
        } else {
            match &entry.shape {
                Some(s) => s.as_str().to_owned(),
                None => DEFAULT_SHAPE.to_owned(),
            }
        };
        let item = Item { title: entry.title.as_str().to_owned(), shape, lines: format_json(entry.content.as_str()) };
        assert(item@ == stored_item(metadata@, showcase@[k as int]));
        let ghost before = item_views(items@);
        items.push(item);
        k = k + 1;
        assert(item_views(items@) =~= before.push(item@));
        assert(item_views(items@) =~= target.take(k + 1));
    }
    assert(target.take(showcase@.len() + 1int) =~= target);
    items
}

/// Why a card store could not be saved.
#[derive(Debug, Clone, Copy, PartialEq, Eq, Structural)]
pub enum SaveError {
    /// The store holds no profile card.
    NoProfile,
    /// The content of the card at this index is not JSON.
    InvalidJson(usize),
}

impl SaveError {
    /// A short message for the user.
    pub fn message(&self) -> String {
        match self {
            SaveError::NoProfile => "No profile found".to_owned(),
            SaveError::InvalidJson(_) => "Parse json error!".to_owned(),
        }
    }
}

/// Whether serde_json reads the card's content.
pub open spec fn content_is_json(c: ItemView) -> bool {
    pretty_json(joined(c.lines)) is Some
}

impl Data {
    /// What a saved document holds: the profile card's content, then each
    /// other card's type and content, in store order. Fails on an empty
    /// store, and at the first card whose content is not JSON.
    pub fn export(&self) -> (r: Result<(String, Vec<(String, String)>), SaveError>)
        ensures
            ({
                let cards = item_views(self.items@);
                &&& (r == Err::<(String, Vec<(String, String)>), SaveError>(SaveError::NoProfile) <==> cards.len() == 0)
                &&& r matches Err(SaveError::InvalidJson(k)) ==> k < cards.len() && !content_is_json(cards[k as int])
                    && forall|j: int| 0 <= j < k ==> content_is_json(#[trigger] cards[j])
                &&& (r is Ok <==> cards.len() > 0 && forall|j: int| 0 <= j < cards.len() ==> content_is_json(#[trigger] cards[j]))
                &&& r matches Ok((profile, entries)) ==> {
                    &&& profile@ == joined(cards[0].lines)
                    &&& entries@.len() == cards.len() - 1
                    &&& forall|j: int| 0 <= j < entries@.len() ==> (#[trigger] entries@[j]).0@ == cards[j + 1].title
                        && entries@[j].1@ == joined(cards[j + 1].lines)
                }
            }),
    {
        let ghost cards = item_views(self.items@);
        let n = self.items.len();
        if n == 0 {
            return Err(SaveError::NoProfile);
        }
        let profile = join_lines(self.items[0].get_lines().as_slice());
        assert(cards[0] == self.items@[0]@);
        if reformat_json(profile.as_str()).is_none() {
            assert(!content_is_json(cards[0]));
            return Err(SaveError::InvalidJson(0));
        }
        let mut entries: Vec<(String, String)> = Vec::new();
        let mut i: usize = 1;
        while i < n
            invariant
                n == self.items@.len(),
                cards == item_views(self.items@),
                1 <= i <= n,
                forall|j: int| 0 <= j < i ==> content_is_json(#[trigger] cards[j]),
                entries@.len() == i - 1,
                forall|j: int| 0 <= j < entries@.len() ==> (#[trigger] entries@[j]).0@ == cards[j + 1].title
                    && entries@[j].1@ == joined(cards[j + 1].lines),
            decreases n - i,
        {
            let item = &self.items[i];
            let content = join_lines(item.get_lines().as_slice());
            assert(cards[i as int] == self.items@[i as int]@);
            if reformat_json(content.as_str()).is_none() {
                assert(!content_is_json(cards[i as int]));
                return Err(SaveError::InvalidJson(i));
            }
            entries.push((item.get_title().as_str().to_owned(), content));
            i = i + 1;
        }
        Ok((profile, entries))
    }
}

} // verus!
