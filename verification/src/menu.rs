//! The context menu: which items a selection gets, where they go, which one a
//! command names, and what the helper is asked to do.

use vstd::prelude::*;

use crate::args::{argv_spec, well_formed, ArgsView, Opt};
use crate::command::Command;
use crate::quote::{quote, quoted};
use crate::units::{ascii_units, copy_units, units_are, units_list, units_of};

verus! {

/// The lock state of one item: not locked by this tool, locked by an entry
/// of its own, or locked through a parent folder.
#[derive(Debug, Clone, Copy, PartialEq, Eq, Structural)]
pub enum LockState {
    Unlocked,
    Explicit,
    Inherited,
}

/// A context-menu item.
#[derive(Debug, Clone, Copy, PartialEq, Eq, Structural)]
pub enum Item {
    MakeReadOnly,
    RemoveReadOnly,
    /// Informational, disabled: everything selected is locked via a parent.
    InheritedInfo,
}

impl Item {
    pub open spec fn label(self) -> Seq<char> {
        match self {
            Item::MakeReadOnly => "Make read only"@,
            Item::RemoveReadOnly => "Remove read only"@,
            Item::InheritedInfo => "Read only (inherited from parent folder)"@,
        }
    }

    pub open spec fn verb_name(self) -> Seq<char> {
        match self {
            Item::MakeReadOnly => "makereadonly"@,
            Item::RemoveReadOnly => "removereadonly"@,
            Item::InheritedInfo => "readonlyinherited"@,
        }
    }

    pub open spec fn help_text(self) -> Seq<char> {
        match self {
            Item::MakeReadOnly => "Deny writes and deletes for everyone, recursively"@,
            Item::RemoveReadOnly => "Remove the read-only lock set by this tool, recursively"@,
            Item::InheritedInfo => "Unlock the parent folder to make this writable"@,
        }
    }

    pub open spec fn is_enabled(self) -> bool {
        !(self is InheritedInfo)
    }

    /// The helper sub-command the item runs, if it does anything.
    pub open spec fn helper_command(self) -> Option<Command> {
        match self {
            Item::MakeReadOnly => Some(Command::Lock),
            Item::RemoveReadOnly => Some(Command::Unlock),
            Item::InheritedInfo => None,
        }
    }

    pub fn text(self) -> (r: &'static str)
        ensures
            r@ == self.label(),
    {
        match self {
            Item::MakeReadOnly => "Make read only",
            Item::RemoveReadOnly => "Remove read only",
            Item::InheritedInfo => "Read only (inherited from parent folder)",
        }
    }

    pub fn verb(self) -> (r: &'static str)
        ensures
            r@ == self.verb_name(),
    {
        match self {
            Item::MakeReadOnly => "makereadonly",
            Item::RemoveReadOnly => "removereadonly",
            Item::InheritedInfo => "readonlyinherited",
        }
    }

    pub fn help(self) -> (r: &'static str)
        ensures
            r@ == self.help_text(),
    {
        match self {
            Item::MakeReadOnly => "Deny writes and deletes for everyone, recursively",
            Item::RemoveReadOnly => "Remove the read-only lock set by this tool, recursively",
            Item::InheritedInfo => "Unlock the parent folder to make this writable",
        }
    }

    pub fn enabled(self) -> (r: bool)
        ensures
            r == self.is_enabled(),
    {
        !matches!(self, Item::InheritedInfo)
    }

    /// Helper sub-command, if the item does anything.
    pub fn command(self) -> (r: Option<&'static str>)
        ensures
            r is Some <==> self.helper_command() is Some,
            r matches Some(s) ==> s@ == self.helper_command()->0.word(),
    {
        match self {
            Item::MakeReadOnly => Some(Command::Lock.as_str()),
            Item::RemoveReadOnly => Some(Command::Unlock.as_str()),
            Item::InheritedInfo => None,
        }
    }
}

/// An item does something exactly when it is enabled, and the verbs tell the
/// items apart.
pub proof fn lemma_items_are_distinguishable(a: Item, b: Item)
    ensures
        a.is_enabled() <==> a.helper_command() is Some,
        a.verb_name() == b.verb_name() ==> a == b,
{
    reveal_strlit("makereadonly");
    reveal_strlit("removereadonly");
    reveal_strlit("readonlyinherited");
    assert(Item::MakeReadOnly.verb_name().len() == 12);
    assert(Item::RemoveReadOnly.verb_name().len() == 14);
    assert(Item::InheritedInfo.verb_name().len() == 17);
}

/// Above this many items the ACL probe is skipped to keep the menu snappy.
pub const PROBE_LIMIT: usize = 64;

/// Aggregated lock state of the selected items.
#[derive(Debug, Clone, Copy, PartialEq, Eq, Structural)]
pub struct Selection {
    pub any_unlocked: bool,
    pub any_explicit: bool,
    pub any_inherited: bool,
}

/// Whether a probe result counts as unlocked: an item that could not be read
/// behaves as unlocked, so the helper gets to report the error.
pub open spec fn reads_unlocked(s: Option<LockState>) -> bool {
    s matches Some(LockState::Unlocked) || s is None
}

impl Selection {
    /// What a selection of `count` items with these probe results is.
    pub open spec fn of(count: nat, states: Seq<Option<LockState>>) -> Selection {
        if count > PROBE_LIMIT {
            Selection { any_unlocked: true, any_explicit: true, any_inherited: false }
        } else {
            Selection {
                any_unlocked: exists|i: int| 0 <= i < states.len() && reads_unlocked(#[trigger] states[i]),
                any_explicit: exists|i: int|
                    0 <= i < states.len() && #[trigger] states[i] == Some(LockState::Explicit),
                any_inherited: exists|i: int|
                    0 <= i < states.len() && #[trigger] states[i] == Some(LockState::Inherited),
            }
        }
    }

    /// Nothing selected.
    pub fn default() -> (r: Selection)
        ensures
            r == (Selection { any_unlocked: false, any_explicit: false, any_inherited: false }),
    {
        Selection { any_unlocked: false, any_explicit: false, any_inherited: false }
    }

    /// Whether a selection of `count` items is probed item by item at all.
    pub fn wants_probe(count: usize) -> (r: bool)
        ensures
            r == (count <= PROBE_LIMIT),
    {
        count <= PROBE_LIMIT
    }

    /// Aggregates the probe results of a selection of `count` items. Above
    /// [`PROBE_LIMIT`] nothing is probed and both real actions are offered.
    pub fn inspect(count: usize, states: &Vec<Option<LockState>>) -> (r: Selection)
        requires
            count <= PROBE_LIMIT ==> states.len() == count,
        ensures
            r == Selection::of(count as nat, states@),
    {
        if count > PROBE_LIMIT {
            return Selection { any_unlocked: true, any_explicit: true, any_inherited: false };
        }
        let mut s = Selection::default();
        let mut i: usize = 0;
        while i < states.len()
            invariant
                i <= states.len(),
                s == Selection::of(count as nat, states@.subrange(0, i as int)),
                count <= PROBE_LIMIT,
            decreases states.len() - i,
        {
            let ghost prefix = states@.subrange(0, i as int);
            let ghost next = states@.subrange(0, i + 1);
            assert forall|j: int| 0 <= j < i implies next[j] == prefix[j] by {}
            match states[i] {
                Some(LockState::Unlocked) | None => s.any_unlocked = true,
                Some(LockState::Explicit) => s.any_explicit = true,
                Some(LockState::Inherited) => s.any_inherited = true,
            }
            proof {
                assert(next[i as int] == states@[i as int]);
                if s.any_unlocked && !Selection::of(count as nat, prefix).any_unlocked {
                    assert(reads_unlocked(next[i as int]));
                }
                if s.any_explicit && !Selection::of(count as nat, prefix).any_explicit {
                    assert(next[i as int] == Some(LockState::Explicit));
                }
                if s.any_inherited && !Selection::of(count as nat, prefix).any_inherited {
                    assert(next[i as int] == Some(LockState::Inherited));
                }
            }
            i = i + 1;
        }
        assert(states@.subrange(0, states.len() as int) =~= states@);
        s
    }
}

/// Menu items for a selection, in display order.
pub open spec fn plan_spec(s: Selection) -> Seq<Item> {
    let actions = (if s.any_unlocked {
        seq![Item::MakeReadOnly]
    } else {
        Seq::empty()
    }) + (if s.any_explicit {
        seq![Item::RemoveReadOnly]
    } else {
        Seq::empty()
    });
    if actions.len() == 0 && s.any_inherited {
        seq![Item::InheritedInfo]
    } else {
        actions
    }
}

/// Menu items for a selection, in display order: "Make read only" when
/// something is unlocked, "Remove read only" when something carries this
/// tool's own lock, and only when neither applies, the disabled note that
/// the selection is locked through a parent.
pub fn plan(s: &Selection) -> (r: Vec<Item>)
    ensures
        r@ == plan_spec(*s),
{
    let mut items: Vec<Item> = Vec::new();
    if s.any_unlocked {
        items.push(Item::MakeReadOnly);
    }
    if s.any_explicit {
        items.push(Item::RemoveReadOnly);
    }
    if items.len() == 0 && s.any_inherited {
        items.push(Item::InheritedInfo);
    }
    assert(items@ =~= plan_spec(*s));
    items
}

/// The disabled note never stands beside an action, every item appears at
/// most once, and "Make read only" always comes first.
pub proof fn lemma_plan_shape(s: Selection)
    ensures
        plan_spec(s).contains(Item::InheritedInfo) ==> plan_spec(s) == seq![Item::InheritedInfo],
        plan_spec(s).len() <= 2,
        forall|i: int, j: int|
            0 <= i < j < plan_spec(s).len() ==> plan_spec(s)[i] != plan_spec(s)[j],
        plan_spec(s).contains(Item::MakeReadOnly) ==> plan_spec(s)[0] == Item::MakeReadOnly,
        plan_spec(s).len() == 0 <==> !s.any_unlocked && !s.any_explicit && !s.any_inherited,
{
}

/// `CMF_DEFAULTONLY`: the caller only wants the default item, which this
/// handler does not have.
pub const CMF_DEFAULTONLY: u32 = 0x1;

/// Where one item goes in the menu Explorer is building.
#[derive(Debug, Clone, Copy, PartialEq, Eq, Structural)]
pub struct MenuEntry {
    /// Position in the menu.
    pub position: u32,
    /// Command id.
    pub id: u32,
    pub item: Item,
    /// Shown disabled.
    pub grayed: bool,
}

/// How many command ids `[first, last]` holds (`last` is inclusive; a last
/// below first leaves no room). The count is taken in 32 bits, saturating.
pub open spec fn room(first: u32, last: u32) -> nat {
    if last < first {
        0
    } else if last - first == u32::MAX {
        u32::MAX as nat
    } else {
        (last - first + 1) as nat
    }
}

pub open spec fn min_nat(a: nat, b: nat) -> nat {
    if a < b {
        a
    } else {
        b
    }
}

/// The entries to insert for `items`: as many as the id range has room for,
/// at consecutive positions from `index` and consecutive ids from `first`.
pub open spec fn entries_spec(index: u32, first: u32, last: u32, items: Seq<Item>) -> Seq<MenuEntry> {
    Seq::new(
        min_nat(items.len(), room(first, last)),
        |i: int|
            MenuEntry {
                position: (index + i) as u32,
                id: (first + i) as u32,
                item: items[i],
                grayed: !items[i].is_enabled(),
            },
    )
}

/// The entries `QueryContextMenu` inserts, or `None` when only the default
/// item is wanted. Ids stay inside `[first, last]`: an id past `last` would
/// collide with another handler's commands.
pub fn menu_entries(flags: u32, index: u32, first: u32, last: u32, items: &Vec<Item>) -> (r: Option<
    Vec<MenuEntry>,
>)
    requires
        index as int + min_nat(items.len() as nat, room(first, last)) <= u32::MAX as int + 1,
    ensures
        r is None <==> flags & CMF_DEFAULTONLY != 0,
        r matches Some(v) ==> v@ == entries_spec(index, first, last, items@),
{
    if flags & CMF_DEFAULTONLY != 0 {
        return None;
    }
    let space: usize = if last < first {
        0
    } else {
        (last - first).saturating_add(1) as usize
    };
    let count: usize = if items.len() < space {
        items.len()
    } else {
        space
    };
    assert(count == min_nat(items.len() as nat, room(first, last)));
    let mut v: Vec<MenuEntry> = Vec::new();
    let mut i: usize = 0;
    while i < count
        invariant
            i <= count,
            count == min_nat(items.len() as nat, room(first, last)),
            count <= items.len(),
            index as int + count <= u32::MAX as int + 1,
            v@ =~= entries_spec(index, first, last, items@).subrange(0, i as int),
        decreases count - i,
    {
        let item = items[i];
        let k = i as u32;
        v.push(
            MenuEntry { position: index + k, id: first + k, item, grayed: !item.enabled() },
        );
        i = i + 1;
        assert(v@ =~= entries_spec(index, first, last, items@).subrange(0, i as int));
    }
    assert(entries_spec(index, first, last, items@).subrange(0, count as int) =~= entries_spec(
        index,
        first,
        last,
        items@,
    ));
    Some(v)
}

/// Every id handed out lies in `[first, last]`, and never more items than
/// there are ids for.
pub proof fn lemma_entries_stay_in_range(index: u32, first: u32, last: u32, items: Seq<Item>)
    ensures
        entries_spec(index, first, last, items).len() <= room(first, last),
        entries_spec(index, first, last, items).len() <= items.len(),
        forall|i: int|
            0 <= i < entries_spec(index, first, last, items).len() ==> first <= (
            #[trigger] entries_spec(index, first, last, items)[i]).id <= last,
{
}

/// `SEE_MASK_UNICODE` (`CMIC_MASK_UNICODE`): the caller passed the larger
/// `CMINVOKECOMMANDINFOEX`, which carries a wide verb as well.
pub const CMIC_MASK_UNICODE: u32 = 0x4000;

/// Where `InvokeCommand` finds the command.
#[derive(Debug, Clone, Copy, PartialEq, Eq, Structural)]
pub enum VerbSource {
    /// A string verb in the wide field.
    Wide,
    /// A string verb in the narrow field.
    Narrow,
    /// A command offset in the low word of the narrow field.
    Offset(usize),
}

/// Which field of the invoke structure holds the command. A string verb may
/// arrive in the wide field when the caller says the structure is the larger
/// one, but a numeric id always stays in the narrow field: the wide one is
/// null then, so reading the id from there would run the first item instead.
pub open spec fn verb_source_spec(mask: u32, size: u32, ex_size: usize, wide: usize, narrow: usize) -> VerbSource {
    if mask & CMIC_MASK_UNICODE != 0 && size as int >= ex_size as int && wide >> 16usize != 0 {
        VerbSource::Wide
    } else if narrow >> 16usize != 0 {
        VerbSource::Narrow
    } else {
        VerbSource::Offset(narrow & 0xFFFF)
    }
}

pub fn verb_source(mask: u32, size: u32, ex_size: usize, wide: usize, narrow: usize) -> (r:
    VerbSource)
    ensures
        r == verb_source_spec(mask, size, ex_size, wide, narrow),
{
    if mask & CMIC_MASK_UNICODE != 0 && size as usize >= ex_size && wide >> 16usize != 0 {
        VerbSource::Wide
    } else if narrow >> 16usize != 0 {
        VerbSource::Narrow
    } else {
        VerbSource::Offset(narrow & 0xFFFF)
    }
}

/// A command as `InvokeCommand` received it.
#[derive(Debug, Clone, PartialEq, Eq)]
pub enum Verb {
    /// A string verb, as text (empty when it was not readable).
    Named(String),
    /// A command offset.
    Offset(usize),
}

/// The first item with a given verb.
pub open spec fn item_named(items: Seq<Item>, name: Seq<char>) -> Option<Item>
    decreases items.len(),
{
    if items.len() == 0 {
        None
    } else if items[0].verb_name() == name {
        Some(items[0])
    } else {
        item_named(items.drop_first(), name)
    }
}

/// The item a command names among the items shown, if it names an enabled
/// one.
pub open spec fn chosen_spec(items: Seq<Item>, verb: Verb) -> Option<Item> {
    let found = match verb {
        Verb::Named(s) => item_named(items, s@),
        Verb::Offset(n) => if n < items.len() {
            Some(items[n as int])
        } else {
            None
        },
    };
    match found {
        Some(item) => if item.is_enabled() {
            Some(item)
        } else {
            None
        },
        None => None,
    }
}

/// The first item whose verb is `name`.
fn find_named(items: &Vec<Item>, name: &str) -> (r: Option<Item>)
    ensures
        r == item_named(items@, name@),
{
    let mut i: usize = 0;
    assert(items@.subrange(0, items.len() as int) =~= items@);
    while i < items.len()
        invariant
            i <= items.len(),
            item_named(items@, name@) == item_named(
                items@.subrange(i as int, items.len() as int),
                name@,
            ),
        decreases items.len() - i,
    {
        let ghost rest = items@.subrange(i as int, items.len() as int);
        assert(rest[0] == items@[i as int]);
        assert(rest.drop_first() =~= items@.subrange(i + 1, items.len() as int));
        if crate::units::str_eq(items[i].verb(), name) {
            return Some(items[i]);
        }
        i = i + 1;
    }
    assert(items@.subrange(items.len() as int, items.len() as int) =~= Seq::<Item>::empty());
    None
}

/// The item a command names among the items shown; `None` when it names
/// none, or only the disabled note.
pub fn chosen_item(items: &Vec<Item>, verb: &Verb) -> (r: Option<Item>)
    ensures
        r == chosen_spec(items@, *verb),
{
    let found = match verb {
        Verb::Named(s) => find_named(items, s.as_str()),
        Verb::Offset(n) => if *n < items.len() {
            Some(items[*n])
        } else {
            None
        },
    };
    match found {
        Some(item) => if item.enabled() {
            Some(item)
        } else {
            None
        },
        None => None,
    }
}

/// `GCS_VERBW`: the caller wants the item's verb.
pub const GCS_VERBW: u32 = 0x4;

/// `GCS_HELPTEXTW`: the caller wants the item's help text.
pub const GCS_HELPTEXTW: u32 = 0x5;

/// The string `GetCommandString` writes: the verb or help text of the item
/// at `id`, cut to leave room for the terminator in a buffer of `capacity`
/// units, NUL-terminated.
pub open spec fn command_string_spec(items: Seq<Item>, id: usize, kind: u32, capacity: u32) -> Option<Seq<u16>> {
    if capacity == 0 || id >= items.len() || (kind != GCS_VERBW && kind != GCS_HELPTEXTW) {
        None
    } else {
        let text = if kind == GCS_VERBW {
            items[id as int].verb_name()
        } else {
            items[id as int].help_text()
        };
        let units = ascii_units(text);
        let keep = min_nat(units.len(), (capacity - 1) as nat);
        Some(units.subrange(0, keep as int).push(0))
    }
}

/// What `GetCommandString` writes, or `None` for an invalid request. With a
/// buffer of zero units nothing at all may be written.
pub fn command_string(items: &Vec<Item>, id: usize, kind: u32, capacity: u32) -> (r: Option<Vec<u16>>)
    ensures
        r matches Some(v) ==> Some(v@) == command_string_spec(items@, id, kind, capacity),
        r is None <==> command_string_spec(items@, id, kind, capacity) is None,
{
    if capacity == 0 || id >= items.len() {
        return None;
    }
    let item = items[id];
    let text = if kind == GCS_VERBW {
        item.verb()
    } else if kind == GCS_HELPTEXTW {
        item.help()
    } else {
        return None;
    };
    let mut units = units_of(text);
    let keep = (capacity - 1) as usize;
    units.truncate(keep);
    units.push(0);
    proof {
        let all = ascii_units(text@);
        if keep > all.len() {
            assert(all.subrange(0, all.len() as int) =~= all);
        }
    }
    Some(units)
}

/// A string handed back never overflows the caller's buffer and is always
/// terminated.
pub proof fn lemma_command_string_fits(items: Seq<Item>, id: usize, kind: u32, capacity: u32)
    ensures
        command_string_spec(items, id, kind, capacity) matches Some(s) ==> s.len() <= capacity
            && s.last() == 0,
{
}

/// What a selection of at most [`PROBE_LIMIT`] items is offered follows its
/// items: "Make read only" exactly when one of them is unlocked or could not
/// be read; "Remove read only" exactly when one carries this tool's lock; the
/// note about a locked parent only when one is locked through its parent and
/// neither action applies. A larger selection is offered both actions.
pub proof fn lemma_selection_reads_its_items(count: nat, states: Seq<Option<LockState>>)
    ensures
        count <= PROBE_LIMIT && states.len() == count ==> {
            let s = Selection::of(count, states);
            &&& s.any_unlocked <==> exists|i: int|
                0 <= i < states.len() && (#[trigger] states[i] == Some(LockState::Unlocked) || states[i] is None)
            &&& s.any_explicit <==> exists|i: int|
                0 <= i < states.len() && #[trigger] states[i] == Some(LockState::Explicit)
            &&& s.any_inherited <==> exists|i: int|
                0 <= i < states.len() && #[trigger] states[i] == Some(LockState::Inherited)
            &&& plan_spec(s).contains(Item::MakeReadOnly) <==> s.any_unlocked
            &&& plan_spec(s).contains(Item::RemoveReadOnly) <==> s.any_explicit
            &&& plan_spec(s).contains(Item::InheritedInfo) <==> (s.any_inherited && !s.any_unlocked
                && !s.any_explicit)
        },
        count > PROBE_LIMIT ==> plan_spec(Selection::of(count, states)) == seq![
            Item::MakeReadOnly,
            Item::RemoveReadOnly,
        ],
{
    let s = Selection::of(count, states);
    let p = plan_spec(s);
    if count <= PROBE_LIMIT && states.len() == count {
        if s.any_unlocked {
            let i = choose|i: int| 0 <= i < states.len() && reads_unlocked(#[trigger] states[i]);
            assert(states[i] == Some(LockState::Unlocked) || states[i] is None);
        }
        if exists|i: int| 0 <= i < states.len() && (#[trigger] states[i] == Some(LockState::Unlocked) || states[i] is None) {
            let i = choose|i: int| 0 <= i < states.len() && (#[trigger] states[i] == Some(LockState::Unlocked) || states[i] is None);
            assert(reads_unlocked(states[i]));
        }
        if s.any_unlocked {
            assert(p[0] == Item::MakeReadOnly);
        }
        if s.any_explicit {
            assert(p[if s.any_unlocked { 1int } else { 0int }] == Item::RemoveReadOnly);
        }
        if p.contains(Item::MakeReadOnly) || p.contains(Item::RemoveReadOnly) || p.contains(Item::InheritedInfo) {
            let k = choose|k: int| 0 <= k < p.len() && (p[k] == Item::MakeReadOnly || p[k] == Item::RemoveReadOnly || p[k] == Item::InheritedInfo);
        }
        if s.any_inherited && !s.any_unlocked && !s.any_explicit {
            assert(p[0] == Item::InheritedInfo);
        }
    } else if count > PROBE_LIMIT {
        assert(p =~= seq![Item::MakeReadOnly, Item::RemoveReadOnly]);
    }
}

/// What Explorer is handed for an item: with room for it, the whole verb for
/// `GCS_VERBW` and the whole help text for `GCS_HELPTEXTW`, each ending in
/// NUL; the help text is neither the item's label nor its verb, so the status
/// bar never just repeats the menu.
pub proof fn lemma_command_strings_say_what_they_are_asked(items: Seq<Item>, id: usize, capacity: u32)
    requires
        id < items.len(),
    ensures
        capacity > ascii_units(items[id as int].help_text()).len() ==> command_string_spec(
            items,
            id,
            GCS_HELPTEXTW,
            capacity,
        ) == Some(ascii_units(items[id as int].help_text()).push(0)),
        capacity > ascii_units(items[id as int].verb_name()).len() ==> command_string_spec(
            items,
            id,
            GCS_VERBW,
            capacity,
        ) == Some(ascii_units(items[id as int].verb_name()).push(0)),
        items[id as int].help_text() != items[id as int].label(),
        items[id as int].help_text() != items[id as int].verb_name(),
{
    reveal_strlit("Make read only");
    reveal_strlit("Remove read only");
    reveal_strlit("Read only (inherited from parent folder)");
    reveal_strlit("makereadonly");
    reveal_strlit("removereadonly");
    reveal_strlit("readonlyinherited");
    reveal_strlit("Deny writes and deletes for everyone, recursively");
    reveal_strlit("Remove the read-only lock set by this tool, recursively");
    reveal_strlit("Unlock the parent folder to make this writable");
    let it = items[id as int];
    let h = ascii_units(it.help_text());
    let v = ascii_units(it.verb_name());
    assert(h.subrange(0, h.len() as int) =~= h);
    assert(v.subrange(0, v.len() as int) =~= v);
    assert(it.help_text().len() != it.label().len());
    assert(it.help_text().len() != it.verb_name().len());
}

} // verus!
