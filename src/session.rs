//! The editing session: a state machine over the card store that reads one
//! key at a time, and says what the editor widget should do next.
//!
//! Index 0 of the store holds the profile card: it is never deleted,
//! reshaped or moved by a swap.

use vstd::prelude::*;
use crate::arrange::{arrange_grid, pack, CellSize};
use crate::data::{
    copy_lines, created_item, format_lines, is_optional, item_views, lookup, next_shape, validation,
    CatalogView, Data, Item, ItemView, MetaData, ValidationError, PROFILE_SHAPE, PROFILE_TITLE,
};
use crate::json::{json_object_keys, pretty_json};
use crate::text::{join_lines, joined, lemma_join_split, same_text, views};

verus! {

/// The mode of a session, with the store index it started from.
#[derive(Debug, Clone, Copy, PartialEq, Eq, Structural)]
pub enum TuiState {
    /// Browsing the store, with the selected card.
    Select(usize),
    /// Editing the content of a card.
    Edit(usize),
    /// Creating a card after the given one: the chosen card type and, once
    /// the type is settled, the chosen shape code.
    Create(usize, usize, Option<usize>),
    /// Asking whether to delete a card.
    Delete(usize),
    /// The session is over.
    Quit,
}

/// A key as the session sees it.
#[derive(Debug, Clone, Copy, PartialEq, Eq, Structural)]
pub enum Key {
    Char(char),
    Enter,
    Esc,
    Up,
    Down,
    Other,
}

/// What the editor widget should do after a key.
#[derive(Debug, Clone, Copy, PartialEq, Eq, Structural)]
pub enum Effect {
    /// Nothing.
    Nothing,
    /// Show the session's buffer in place of what it holds.
    LoadBuffer,
    /// Take the key as typing.
    ForwardKey,
}

/// The session's state, as a mathematical value.
pub struct SessionView {
    pub catalog: CatalogView,
    pub cards: Seq<ItemView>,
    pub state: TuiState,
    pub oops: nat,
    pub buffer: Seq<Seq<char>>,
}

/// An editing session over a card store.
pub struct Session {
    data: Data,
    state: TuiState,
    oops_count: usize,
    buffer: Vec<String>,
}

impl View for Session {
    type V = SessionView;

    closed spec fn view(&self) -> SessionView {
        SessionView {
            catalog: self.data.metadata@,
            cards: item_views(self.data.items@),
            state: self.state,
            oops: self.oops_count as nat,
            buffer: views(self.buffer@),
        }
    }
}

/// The rows of the preview grid.
pub const PREVIEW_ROWS: usize = 50;

/// The columns of the preview grid.
pub const PREVIEW_COLS: usize = 8;

/// Whether the state's index is one the store can hold there.
pub open spec fn state_fits(state: TuiState, len: nat) -> bool {
    match state {
        TuiState::Select(i) => i < len,
        TuiState::Edit(i) => i < len,
        TuiState::Create(i, _, _) => i < len,
        TuiState::Delete(i) => 1 <= i < len,
        TuiState::Quit => true,
    }
}

/// The store holds a profile card and the state points into the store.
pub open spec fn session_wf(v: SessionView) -> bool {
    &&& v.cards.len() >= 1
    &&& state_fits(v.state, v.cards.len())
    &&& v.oops <= usize::MAX
    &&& v.cards.len() <= usize::MAX
}

/// The cards with those at `i` and `i + 1` exchanged.
pub open spec fn swapped(cards: Seq<ItemView>, i: int) -> Seq<ItemView> {
    cards.update(i, cards[i + 1]).update(i + 1, cards[i])
}

/// Whether a key is the letter `c` in either case.
pub open spec fn is_letter(key: Key, lower: char, upper: char) -> bool {
    key == Key::Char(lower) || key == Key::Char(upper)
}

/// Whether Reshape leaves the card at `i` alone: the profile card, and the
/// cards of the catalog's first type, which take a full row.
pub open spec fn reshape_exempt(v: SessionView, i: int) -> bool {
    i == 0 || (v.catalog.cards.len() > 0 && v.cards[i].title == v.catalog.cards[0]) || v.catalog.shapes.len() == 0
}

/// A key in Select(i).
pub open spec fn select_step(v: SessionView, i: int, key: Key) -> (SessionView, Effect) {
    let n = v.cards.len();
    if is_letter(key, 'q', 'Q') {
        (SessionView { state: TuiState::Quit, ..v }, Effect::Nothing)
    } else if is_letter(key, 'n', 'N') {
        (SessionView { state: TuiState::Create(i as usize, 0, None), ..v }, Effect::Nothing)
    } else if is_letter(key, 'd', 'D') {
        if i != 0 {
            (SessionView { state: TuiState::Delete(i as usize), ..v }, Effect::Nothing)
        } else {
            (v, Effect::Nothing)
        }
    } else if is_letter(key, 'j', 'J') {
        if 1 <= i && i + 1 < n {
            (SessionView { cards: swapped(v.cards, i), state: TuiState::Select((i + 1) as usize), ..v }, Effect::Nothing)
        } else {
            (v, Effect::Nothing)
        }
    } else if is_letter(key, 'k', 'K') {
        if i > 1 {
            (SessionView { cards: swapped(v.cards, i - 1), state: TuiState::Select((i - 1) as usize), ..v }, Effect::Nothing)
        } else {
            (v, Effect::Nothing)
        }
    } else if is_letter(key, 'r', 'R') {
        if reshape_exempt(v, i) {
            (v, Effect::Nothing)
        } else {
            let card = v.cards[i];
            (SessionView {
                cards: v.cards.update(i, ItemView { shape: next_shape(v.catalog, card.shape), ..card }),
                ..v
            }, Effect::Nothing)
        }
    } else if key == Key::Enter {
        (SessionView { state: TuiState::Edit(i as usize), oops: 0, buffer: v.cards[i].lines, ..v }, Effect::LoadBuffer)
    } else if key == Key::Up {
        if i > 0 {
            (SessionView { state: TuiState::Select((i - 1) as usize), buffer: v.cards[i - 1].lines, ..v }, Effect::LoadBuffer)
        } else {
            (v, Effect::Nothing)
        }
    } else if key == Key::Down {
        if i + 1 < n {
            (SessionView { state: TuiState::Select((i + 1) as usize), buffer: v.cards[i + 1].lines, ..v }, Effect::LoadBuffer)
        } else {
            (v, Effect::Nothing)
        }
    } else {
        (v, Effect::Nothing)
    }
}

/// The invalid-attempt counter after one more attempt.
pub open spec fn bumped(oops: nat) -> nat {
    if oops < usize::MAX {
        oops + 1
    } else {
        oops
    }
}

/// A key in Edit(i), with the editor holding `editor`.
pub open spec fn edit_step(v: SessionView, i: int, key: Key, editor: Seq<Seq<char>>) -> (SessionView, Effect) {
    if key == Key::Esc {
        let text = joined(editor);
        match validation(v.catalog, text, v.cards[i].title) {
            Ok(_) => (SessionView {
                cards: v.cards.update(i, ItemView { lines: format_lines(text), ..v.cards[i] }),
                state: TuiState::Select(i as usize),
                oops: 0,
                ..v
            }, Effect::Nothing),
            Err(_) => (SessionView { oops: bumped(v.oops), ..v }, Effect::Nothing),
        }
    } else {
        (v, Effect::ForwardKey)
    }
}

/// A key in Create(i, c, s).
pub open spec fn create_step(v: SessionView, i: int, c: int, s: Option<usize>, key: Key) -> (SessionView, Effect) {
    if key == Key::Enter {
        if s is None && c != 0 {
            (SessionView { state: TuiState::Create(i as usize, c as usize, Some(0)), ..v }, Effect::Nothing)
        } else {
            let shape = match s {
                Some(k) => k as int,
                None => 0,
            };
            match created_item(v.catalog, c, shape) {
                Ok(item) => (SessionView {
                    cards: v.cards.insert(i + 1, item),
                    state: TuiState::Edit((i + 1) as usize),
                    oops: 0,
                    buffer: item.lines,
                    ..v
                }, Effect::LoadBuffer),
                Err(_) => (v, Effect::Nothing),
            }
        }
    } else if key == Key::Esc {
        (SessionView { state: TuiState::Select(i as usize), ..v }, Effect::Nothing)
    } else if key == Key::Up {
        match s {
            None => if c > 0 {
                (SessionView { state: TuiState::Create(i as usize, (c - 1) as usize, None), ..v }, Effect::Nothing)
            } else {
                (v, Effect::Nothing)
            },
            Some(k) => if k > 0 {
                (SessionView { state: TuiState::Create(i as usize, c as usize, Some((k - 1) as usize)), ..v }, Effect::Nothing)
            } else {
                (v, Effect::Nothing)
            },
        }
    } else if key == Key::Down {
        match s {
            None => if c + 1 < v.catalog.cards.len() {
                (SessionView { state: TuiState::Create(i as usize, (c + 1) as usize, None), ..v }, Effect::Nothing)
            } else {
                (v, Effect::Nothing)
            },
            Some(k) => if k + 1 < v.catalog.shapes.len() {
                (SessionView { state: TuiState::Create(i as usize, c as usize, Some((k + 1) as usize)), ..v }, Effect::Nothing)
            } else {
                (v, Effect::Nothing)
            },
        }
    } else {
        (v, Effect::Nothing)
    }
}

/// A key in Delete(i).
pub open spec fn delete_step(v: SessionView, i: int, key: Key) -> (SessionView, Effect) {
    if key == Key::Enter {
        if i != 0 {
            let cards = v.cards.remove(i);
            (SessionView { cards, state: TuiState::Select((i - 1) as usize), buffer: cards[i - 1].lines, ..v }, Effect::LoadBuffer)
        } else {
            (v, Effect::Nothing)
        }
    } else if key == Key::Esc {
        (SessionView { state: TuiState::Select(i as usize), ..v }, Effect::Nothing)
    } else {
        (v, Effect::Nothing)
    }
}

/// The session after one key, with the editor holding `editor`, and what the
/// editor should do.
pub open spec fn step(v: SessionView, key: Key, editor: Seq<Seq<char>>) -> (SessionView, Effect) {
    match v.state {
        TuiState::Select(i) => select_step(v, i as int, key),
        TuiState::Edit(i) => edit_step(v, i as int, key, editor),
        TuiState::Create(i, c, s) => create_step(v, i as int, c as int, s, key),
        TuiState::Delete(i) => delete_step(v, i as int, key),
        TuiState::Quit => (v, Effect::Nothing),
    }
}

/// The profile card that stands in for a missing one: an empty object.
pub open spec fn placeholder_profile() -> ItemView {
    ItemView { title: PROFILE_TITLE@, shape: PROFILE_SHAPE@, lines: seq![seq!['{', '}']] }
}

/// The cards with `item` in place of the one at `i`.
proof fn lemma_item_views_update(items: Seq<Item>, i: int, item: Item)
    requires
        0 <= i < items.len(),
    ensures
        item_views(items.remove(i).insert(i, item)) == item_views(items).update(i, item@),
{
    assert(item_views(items.remove(i).insert(i, item)) =~= item_views(items).update(i, item@));
}

impl Session {
    /// A session over the store, selecting its first card, with that card's
    /// content in the buffer. A store without cards gets a placeholder
    /// profile card.
    pub fn new(metadata: MetaData, items: Vec<Item>) -> (r: Session)
        ensures
            session_wf(r@),
            r@.catalog == metadata@,
            items@.len() > 0 ==> r@.cards == item_views(items@),
            items@.len() == 0 ==> r@.cards == seq![placeholder_profile()],
            r@.state == TuiState::Select(0),
            r@.oops == 0,
            r@.buffer == r@.cards[0].lines,
    {
        let mut items = items;
        if items.len() == 0 {
            let mut lines: Vec<String> = Vec::new();
            let empty_object = "{}".to_owned();
            proof {
                reveal_strlit("{}");
                assert(empty_object@ =~= seq!['{', '}']);
            }
            lines.push(empty_object);
            assert(views(lines@) =~= seq![seq!['{', '}']]);
            let profile = Item::new(PROFILE_TITLE.to_owned(), PROFILE_SHAPE.to_owned(), lines);
            items.push(profile);
            assert(item_views(items@) =~= seq![placeholder_profile()]);
        }
        let buffer = copy_lines(items[0].get_lines().as_slice());
        Session { data: Data { metadata, items }, state: TuiState::Select(0), oops_count: 0, buffer }
    }

    /// Whether the store holds a profile card and the state points into the
    /// store; every session that `new` makes and keys move on stays so.
    pub fn is_well_formed(&self) -> (r: bool)
        ensures
            r == session_wf(self@),
    {
        let n = self.data.items.len();
        n >= 1 && match self.state {
            TuiState::Select(i) => i < n,
            TuiState::Edit(i) => i < n,
            TuiState::Create(i, _, _) => i < n,
            TuiState::Delete(i) => 1 <= i && i < n,
            TuiState::Quit => true,
        }
    }

    pub fn get_state(&self) -> (r: TuiState)
        ensures
            r == self@.state,
    {
        self.state
    }

    pub fn get_data(&self) -> (r: &Data)
        ensures
            r.metadata@ == self@.catalog,
            item_views(r.items@) == self@.cards,
    {
        &self.data
    }

    pub fn get_items(&self) -> (r: &Vec<Item>)
        ensures
            item_views(r@) == self@.cards,
    {
        &self.data.items
    }

    pub fn get_metadata(&self) -> (r: &MetaData)
        ensures
            r@ == self@.catalog,
    {
        &self.data.metadata
    }

    pub fn get_oops_count(&self) -> (r: usize)
        ensures
            r == self@.oops,
    {
        self.oops_count
    }

    /// The content most recently loaded for the editor.
    pub fn get_buffer(&self) -> (r: &Vec<String>)
        ensures
            views(r@) == self@.buffer,
    {
        &self.buffer
    }

    /// Ends the session, handing back the catalog and the store.
    pub fn into_data(self) -> (r: Data)
        ensures
            r.metadata@ == self@.catalog,
            item_views(r.items@) == self@.cards,
    {
        self.data
    }

    fn load_buffer(&mut self, i: usize)
        requires
            i < old(self).data.items@.len(),
        ensures
            final(self)@ == (SessionView { buffer: old(self)@.cards[i as int].lines, ..old(self)@ }),
    {
        self.buffer = copy_lines(self.data.items[i].get_lines().as_slice());
    }

    fn select_mode(&mut self, key: Key, selected_index: usize) -> (e: Effect)
        requires
            session_wf(old(self)@),
            old(self)@.state == TuiState::Select(selected_index),
        ensures
            (final(self)@, e) == select_step(old(self)@, selected_index as int, key),
    {
        let i = selected_index;
        let n = self.data.items.len();
        let ghost v = self@;
        match key {
            Key::Char('q') | Key::Char('Q') => {
                self.state = TuiState::Quit;
            },
            Key::Char('n') | Key::Char('N') => {
                self.state = TuiState::Create(i, 0, None);
            },
            Key::Char('d') | Key::Char('D') => {
                if i != 0 {
                    self.state = TuiState::Delete(i);
                }
            },
            Key::Char('j') | Key::Char('J') => {
                if 1 <= i && i + 1 < n {
                    let item = self.data.items.remove(i);
                    self.data.items.insert(i + 1, item);
                    self.state = TuiState::Select(i + 1);
                    assert(self@.cards =~= swapped(v.cards, i as int));
                }
            },
            Key::Char('k') | Key::Char('K') => {
                if i > 1 {
                    let item = self.data.items.remove(i);
                    self.data.items.insert(i - 1, item);
                    self.state = TuiState::Select(i - 1);
                    assert(self@.cards =~= swapped(v.cards, i - 1));
                }
            },
            Key::Char('r') | Key::Char('R') => {
                let exempt = if i == 0 || self.data.metadata.count_shapes() == 0 {
                    true
                } else {
                    match self.data.metadata.get_card(0) {
                        Some(first) => same_text(first.as_str(), self.data.items[i].get_title().as_str()),
                        None => false,
                    }
                };
                if !exempt {
                    let count = self.data.metadata.count_shapes();
                    let idx = self.data.metadata.index_of_shape(self.data.items[i].get_shape().as_str());
                    let next = (idx % count + 1) % count;
                    proof {
                        let k = idx as int;
                        assert((k % (count as int) + 1) % (count as int) == (k + 1) % (count as int)) by (nonlinear_arith)
                            requires
                                count > 0,
                                k >= 0,
                        ;
                    }
                    let shape = match self.data.metadata.get_shape(next) {
                        Some(s) => s.as_str().to_owned(),
                        None => {
                            return Effect::Nothing;
                        },
                    };
                    let ghost items = self.data.items@;
                    let mut item = self.data.items.remove(i);
                    item.set_shape(shape);
                    self.data.items.insert(i, item);
                    proof {
                        lemma_item_views_update(items, i as int, item);
                    }
                }
            },
            Key::Enter => {
                self.state = TuiState::Edit(i);
                self.oops_count = 0;
                self.load_buffer(i);
                return Effect::LoadBuffer;
            },
            Key::Up => {
                if i > 0 {
                    self.state = TuiState::Select(i - 1);
                    self.load_buffer(i - 1);
                    return Effect::LoadBuffer;
                }
            },
            Key::Down => {
                if i + 1 < n {
                    self.state = TuiState::Select(i + 1);
                    self.load_buffer(i + 1);
                    return Effect::LoadBuffer;
                }
            },
            _ => {},
        }
        Effect::Nothing
    }

    fn edit_mode(&mut self, key: Key, editor: &[String], selected_index: usize) -> (e: Effect)
        requires
            session_wf(old(self)@),
            old(self)@.state == TuiState::Edit(selected_index),
        ensures
            (final(self)@, e) == edit_step(old(self)@, selected_index as int, key, views(editor@)),
    {
        let i = selected_index;
        match key {
            Key::Esc => {
                let json_str = join_lines(editor);
                let checked = self.data.metadata.is_valid(json_str.as_str(), self.data.items[i].get_title().as_str());
                match checked {
                    Ok(()) => {
                        self.oops_count = 0;
                        self.state = TuiState::Select(i);
                        let ghost items = self.data.items@;
                        let mut item = self.data.items.remove(i);
                        item.set_lines_and_format(editor);
                        self.data.items.insert(i, item);
                        proof {
                            lemma_item_views_update(items, i as int, item);
                        }
                    },
                    Err(_) => {
                        if self.oops_count < usize::MAX {
                            self.oops_count = self.oops_count + 1;
                        }
                    },
                }
                Effect::Nothing
            },
            _ => Effect::ForwardKey,
        }
    }

    fn create_mode(&mut self, key: Key, selected_index: usize, card_index: usize, shape_index: Option<usize>) -> (e: Effect)
        requires
            session_wf(old(self)@),
            old(self)@.state == TuiState::Create(selected_index, card_index, shape_index),
        ensures
            (final(self)@, e) == create_step(
                old(self)@,
                selected_index as int,
                card_index as int,
                shape_index,
                key,
            ),
            final(self)@.cards.len() <= usize::MAX,
    {
        let i = selected_index;
        let c = card_index;
        match key {
            Key::Enter => {
                if shape_index.is_none() && c != 0 {
                    self.state = TuiState::Create(i, c, Some(0));
                } else {
                    let s = match shape_index {
                        Some(k) => k,
                        None => 0,
                    };
                    match self.data.metadata.create_item(c, s) {
                        Ok(new_item) => {
                            let ghost items = self.data.items@;
                            self.data.items.insert(i + 1, new_item);
                            let n = self.data.items.len();
                            assert(item_views(self.data.items@) =~= item_views(items).insert(i + 1, new_item@));
                            self.state = TuiState::Edit(i + 1);
                            self.oops_count = 0;
                            self.load_buffer(i + 1);
                            return Effect::LoadBuffer;
                        },
                        Err(_) => {},
                    }
                }
            },
            Key::Esc => {
                self.state = TuiState::Select(i);
            },
            Key::Up => {
                match shape_index {
                    None => {
                        if c > 0 {
                            self.state = TuiState::Create(i, c - 1, None);
                        }
                    },
                    Some(k) => {
                        if k > 0 {
                            self.state = TuiState::Create(i, c, Some(k - 1));
                        }
                    },
                }
            },
            Key::Down => {
                match shape_index {
                    None => {
                        if c < self.data.metadata.count_cards() && c + 1 < self.data.metadata.count_cards() {
                            self.state = TuiState::Create(i, c + 1, None);
                        }
                    },
                    Some(k) => {
                        if k < self.data.metadata.count_shapes() && k + 1 < self.data.metadata.count_shapes() {
                            self.state = TuiState::Create(i, c, Some(k + 1));
                        }
                    },
                }
            },
            _ => {},
        }
        Effect::Nothing
    }

    fn delete_mode(&mut self, key: Key, selected_index: usize) -> (e: Effect)
        requires
            session_wf(old(self)@),
            old(self)@.state == TuiState::Delete(selected_index),
        ensures
            (final(self)@, e) == delete_step(old(self)@, selected_index as int, key),
    {
        let i = selected_index;
        match key {
            Key::Enter => {
                if i != 0 {
                    let ghost items = self.data.items@;
                    self.data.items.remove(i);
                    assert(item_views(self.data.items@) =~= item_views(items).remove(i as int));
                    self.state = TuiState::Select(i - 1);
                    self.load_buffer(i - 1);
                    return Effect::LoadBuffer;
                }
            },
            Key::Esc => {
                self.state = TuiState::Select(i);
            },
            _ => {},
        }
        Effect::Nothing
    }

    /// Takes one key, with the editor holding `editor`: the session moves on
    /// as `step` says, and the result tells the editor what to do.
    pub fn process_key_event(&mut self, key: Key, editor: &[String]) -> (e: Effect)
        ensures
            session_wf(old(self)@) ==> (final(self)@, e) == step(old(self)@, key, views(editor@)),
            session_wf(old(self)@) ==> session_wf(final(self)@),
            !session_wf(old(self)@) ==> final(self)@ == old(self)@ && e == Effect::Nothing,
    {
        if !self.is_well_formed() {
            return Effect::Nothing;
        }
        match self.state {
            TuiState::Select(i) => self.select_mode(key, i),
            TuiState::Edit(i) => self.edit_mode(key, editor, i),
            TuiState::Create(i, c, s) => self.create_mode(key, i, c, s),
            TuiState::Delete(i) => self.delete_mode(key, i),
            TuiState::Quit => Effect::Nothing,
        }
    }
}

/// The entry that a card gives the preview layout: `<type>-<shape code>`.
pub open spec fn preview_entry(c: ItemView) -> Seq<char> {
    c.title + seq!['-'] + c.shape
}

/// The entries of the preview layout: every card but the profile card, in
/// store order.
pub open spec fn preview_entries(cards: Seq<ItemView>) -> Seq<Seq<char>> {
    if cards.len() == 0 {
        Seq::empty()
    } else {
        cards.skip(1).map_values(|c: ItemView| preview_entry(c))
    }
}

impl Session {
    /// The layout of the preview: the cards after the profile card, packed
    /// on the preview grid.
    pub fn preview_layout(&self) -> (r: Vec<CellSize>)
        ensures
            r@.map_values(|c: CellSize| c@) == pack(
                PREVIEW_ROWS as nat,
                PREVIEW_COLS as nat,
                preview_entries(self@.cards),
            ).placed,
    {
        let ghost cards = self@.cards;
        let mut main_cards: Vec<String> = Vec::new();
        let mut k: usize = 1;
        let n = self.data.items.len();
        while k < n
            invariant
                n == self.data.items@.len(),
                cards == item_views(self.data.items@),
                1 <= k <= n || n == 0,
                n > 0 ==> views(main_cards@) == preview_entries(cards).take(k - 1),
                n == 0 ==> main_cards@.len() == 0,
            decreases n - k,
        {
            let item = &self.data.items[k];
            let mut entry = item.get_title().as_str().to_owned();
            entry.append("-");
            entry.append(item.get_shape().as_str());
            proof {
                reveal_strlit("-");
                assert(entry@ =~= preview_entry(cards[k as int]));
            }
            let ghost before = views(main_cards@);
            main_cards.push(entry);
            assert(views(main_cards@) =~= before.push(entry@));
            assert(preview_entries(cards)[k - 1] == preview_entry(cards[k as int]));
            k = k + 1;
            assert(views(main_cards@) =~= preview_entries(cards).take(k - 1));
        }
        proof {
            if n > 0 {
                assert(preview_entries(cards).take(n - 1) =~= preview_entries(cards));
            } else {
                assert(views(main_cards@) =~= preview_entries(cards));
            }
        }
        arrange_grid((PREVIEW_ROWS, PREVIEW_COLS), main_cards.as_slice())
    }

    /// In Edit, how the editor's content fares against the catalog's check
    /// for the card being edited; `None` in any other mode.
    pub fn editor_status(&self, editor: &[String]) -> (r: Option<Result<(), ValidationError>>)
        ensures
            match self@.state {
                TuiState::Edit(i) => if i < self@.cards.len() {
                    r == Some(validation(self@.catalog, joined(views(editor@)), self@.cards[i as int].title))
                } else {
                    r is None
                },
                _ => r is None,
            },
    {
        match self.state {
            TuiState::Edit(i) => {
                if i >= self.data.items.len() {
                    return None;
                }
                let json_str = join_lines(editor);
                Some(self.data.metadata.is_valid(json_str.as_str(), self.data.items[i].get_title().as_str()))
            },
            _ => None,
        }
    }
}

/// Committing an edit whose content lacks a field that the card's type
/// requires leaves the session in Edit on the same card, with the store as
/// it was.
pub proof fn lemma_commit_gate(v: SessionView, i: usize, editor: Seq<Seq<char>>, field: Seq<char>)
    requires
        session_wf(v),
        v.state == TuiState::Edit(i),
        lookup(v.catalog.fields, v.cards[i as int].title) matches Some(fields) && fields.contains(field),
        !is_optional(field),
        json_object_keys(joined(editor)) matches Some(keys) && !keys.contains(field),
    ensures
        step(v, Key::Esc, editor).0.state == TuiState::Edit(i),
        step(v, Key::Esc, editor).0.cards == v.cards,
{
    let fields = lookup(v.catalog.fields, v.cards[i as int].title)->0;
    let k = choose|k: int| 0 <= k < fields.len() && fields[k] == field;
    assert(!is_optional(fields[k]));
}

/// Committing an edit whose content passes validation returns to Select on
/// the same card and stores, as the card's lines, exactly the text that
/// serde_json's pretty printer writes for the committed value.
pub proof fn lemma_commit_reformats(v: SessionView, i: usize, editor: Seq<Seq<char>>)
    requires
        session_wf(v),
        v.state == TuiState::Edit(i),
        validation(v.catalog, joined(editor), v.cards[i as int].title) is Ok,
    ensures
        step(v, Key::Esc, editor).0.state == TuiState::Select(i),
        step(v, Key::Esc, editor).0.cards.len() == v.cards.len(),
        joined(step(v, Key::Esc, editor).0.cards[i as int].lines) == match pretty_json(joined(editor)) {
            Some(p) => p,
            None => joined(editor),
        },
{
    let text = joined(editor);
    match pretty_json(text) {
        Some(p) => lemma_join_split(p),
        None => {},
    }
}

/// Delete and Reshape leave the profile card at index 0 alone, and so does
/// Reshape any card of the catalog's first type.
pub proof fn lemma_profile_protected(v: SessionView, i: usize, editor: Seq<Seq<char>>)
    requires
        session_wf(v),
        v.state == TuiState::Select(i),
    ensures
        i == 0 ==> step(v, Key::Char('d'), editor) == (v, Effect::Nothing),
        i == 0 ==> step(v, Key::Char('D'), editor) == (v, Effect::Nothing),
        reshape_exempt(v, i as int) ==> step(v, Key::Char('r'), editor) == (v, Effect::Nothing),
        reshape_exempt(v, i as int) ==> step(v, Key::Char('R'), editor) == (v, Effect::Nothing),
{
}

/// No key removes the profile card from index 0 or changes its type or
/// shape code.
pub proof fn lemma_profile_kept(v: SessionView, key: Key, editor: Seq<Seq<char>>)
    requires
        session_wf(v),
    ensures
        step(v, key, editor).0.cards.len() >= 1,
        step(v, key, editor).0.cards[0].title == v.cards[0].title,
        step(v, key, editor).0.cards[0].shape == v.cards[0].shape,
{
}

} // verus!
