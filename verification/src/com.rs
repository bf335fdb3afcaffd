//! The COM objects of the context-menu extension and the DLL's lifetime
//! counters.
//!
//! Explorer asks the DLL whether it may be unloaded; that is only safe with
//! no object alive and no outstanding server lock. Every COM object the DLL
//! hands out counts, the class factory included.

use vstd::prelude::*;

use crate::menu::{chosen_item, chosen_spec, command_string, command_string_spec, Item, MenuEntry, Verb};
use crate::order::{
    body_start, has_file_name, head_of, is_letter, last_piece_of, layout, path_parent, plen_of, prefix_of, trimmed_end,
    verbatim_of, PrefixKind,
};
use crate::units::{ascii_units, copy_list, units_list, units_of};

verus! {

/// What the DLL-wide state means.
pub struct ModuleView {
    /// The DLL's own module handle, as recorded when it was attached.
    pub handle: isize,
    /// COM objects alive.
    pub live: usize,
    /// Outstanding `LockServer(TRUE)` calls.
    pub locks: usize,
}

impl ModuleView {
    pub open spec fn created(self) -> ModuleView {
        ModuleView { live: if self.live == usize::MAX { 0 } else { (self.live + 1) as usize }, ..self }
    }

    pub open spec fn dropped(self) -> ModuleView {
        ModuleView { live: if self.live == 0 { usize::MAX } else { (self.live - 1) as usize }, ..self }
    }

    /// `LockServer`: a lock counts up (wrapping as the atomic counter does);
    /// an unlock counts down and never below zero.
    pub open spec fn server_locked(self, locked: bool) -> ModuleView {
        if locked {
            ModuleView { locks: if self.locks == usize::MAX { 0 } else { (self.locks + 1) as usize }, ..self }
        } else {
            ModuleView { locks: if self.locks == 0 { 0 } else { (self.locks - 1) as usize }, ..self }
        }
    }

    pub open spec fn unloadable(self) -> bool {
        self.live == 0 && self.locks == 0
    }
}

/// Process-wide DLL state: module handle, live COM objects and server locks.
pub struct Module {
    handle: isize,
    live: usize,
    locks: usize,
}

impl View for Module {
    type V = ModuleView;

    closed spec fn view(&self) -> ModuleView {
        ModuleView { handle: self.handle, live: self.live, locks: self.locks }
    }
}

impl Module {
    /// The state of a freshly loaded DLL.
    pub fn new() -> (r: Module)
        ensures
            r@ == (ModuleView { handle: 0, live: 0, locks: 0 }),
    {
        Module { handle: 0, live: 0, locks: 0 }
    }

    pub fn set_handle(&mut self, h: isize)
        ensures
            final(self)@ == (ModuleView { handle: h, ..old(self)@ }),
    {
        self.handle = h;
    }

    pub fn handle(&self) -> (r: isize)
        ensures
            r == self@.handle,
    {
        self.handle
    }

    /// Every COM object this DLL hands out counts, the class factory included.
    pub fn object_created(&mut self)
        ensures
            final(self)@ == old(self)@.created(),
    {
        self.live = self.live.wrapping_add(1);
    }

    pub fn object_dropped(&mut self)
        ensures
            final(self)@ == old(self)@.dropped(),
    {
        self.live = self.live.wrapping_sub(1);
    }

    /// `IClassFactory::LockServer`: keeps the DLL loaded with no live objects.
    pub fn set_server_lock(&mut self, locked: bool)
        ensures
            final(self)@ == old(self)@.server_locked(locked),
    {
        if locked {
            self.locks = self.locks.wrapping_add(1);
        } else {
            self.locks = self.locks.saturating_sub(1);
        }
    }

    /// Unloading is only safe with nothing alive and no outstanding lock.
    pub fn can_unload(&self) -> (r: bool)
        ensures
            r == self@.unloadable(),
    {
        self.live == 0 && self.locks == 0
    }

    /// The helper executable expected next to the DLL: the DLL's path with
    /// its last component replaced by `win-make-ro.exe`.
    pub fn helper_path(dll_path: Option<&Vec<u16>>) -> (r: Option<Vec<u16>>)
        ensures
            r is Some <==> dll_path is Some,
            r matches Some(p) ==> p@ == beside(dll_path->0@, helper_name()),
    {
        match dll_path {
            Some(dll) => {
                let name = units_of("win-make-ro.exe");
                proof {
                    reveal_strlit("win-make-ro.exe");
                    assert(ascii_units("win-make-ro.exe"@) =~= helper_name());
                    lemma_helper_name_is_plain();
                }
                Some(with_file_name(dll, &name))
            },
            None => None,
        }
    }
}

proof fn lemma_helper_name_is_plain()
    ensures
        plain_name(helper_name()),
{
    let h = helper_name();
    assert(h.len() == 15);
    assert forall|i: int| 0 <= i < h.len() implies !(#[trigger] h[i] == 0x5C || h[i] == 0x2F) by {
        assert(h[i] == seq!['w', 'i', 'n', '-', 'm', 'a', 'k', 'e', '-', 'r', 'o', '.', 'e', 'x', 'e'][i] as u16);
    }
    assert(h[1] == 'i' as u16);
}

/// Releasing an object undoes creating it, and releasing a lock undoes
/// taking it: the DLL is unloadable again exactly when it was before.
pub proof fn lemma_counters_undo(m: ModuleView)
    ensures
        m.created().dropped() == m,
        m.locks < usize::MAX ==> m.server_locked(true).server_locked(false) == m,
        m.server_locked(false).locks <= m.locks,
{
}

/// While an object is alive or a lock is held, the DLL refuses to unload.
pub proof fn lemma_held_refuses_unload(m: ModuleView)
    ensures
        m.live < usize::MAX ==> !m.created().unloadable(),
        m.locks < usize::MAX ==> !m.server_locked(true).unloadable(),
{
}

pub open spec fn helper_name() -> Seq<u16> {
    ascii_units(seq!['w', 'i', 'n', '-', 'm', 'a', 'k', 'e', '-', 'r', 'o', '.', 'e', 'x', 'e'])
}

/// A name that is one plain component: not empty, without a separator,
/// neither `.` nor `..`, and not beginning with a drive.
pub open spec fn plain_name(n: Seq<u16>) -> bool {
    &&& n.len() > 0
    &&& forall|i: int| 0 <= i < n.len() ==> !(#[trigger] n[i] == 0x5C || n[i] == 0x2F)
    &&& !(n.len() == 1 && n[0] == 0x2E)
    &&& !(n.len() == 2 && n[0] == 0x2E && n[1] == 0x2E)
    &&& !(n.len() >= 2 && is_letter(n[0]) && n[1] == 0x3A)
}

/// The non-empty pieces of a verbatim path's body, from the piece that began
/// at `start`, reading on at `i`.
pub open spec fn texts_from(p: Seq<u16>, start: int, i: int) -> Seq<Seq<u16>>
    decreases p.len() - i,
{
    if i >= p.len() {
        if p.len() > start {
            seq![p.subrange(start, p.len() as int)]
        } else {
            Seq::empty()
        }
    } else if p[i] == 0x5C {
        (if i > start {
            seq![p.subrange(start, i)]
        } else {
            Seq::empty()
        }) + texts_from(p, i + 1, i + 1)
    } else {
        texts_from(p, start, i + 1)
    }
}

/// Pieces joined with `\`.
pub open spec fn joined(parts: Seq<Seq<u16>>) -> Seq<u16>
    decreases parts.len(),
{
    if parts.len() == 0 {
        Seq::empty()
    } else if parts.len() == 1 {
        parts[0]
    } else {
        joined(parts.drop_last()) + seq![0x5Cu16] + parts.last()
    }
}

/// `name` pushed onto `base`, as `PathBuf::push` does for a plain name: a
/// verbatim path is written out again component by component with `\`
/// between them; another gets a `\` unless it ends in a separator or is a
/// bare drive.
pub open spec fn pushed(base: Seq<u16>, name: Seq<u16>) -> Seq<u16> {
    if verbatim_of(base) {
        base.subrange(0, plen_of(base)) + seq![0x5Cu16] + joined(
            texts_from(base, body_start(base), body_start(base)).push(name),
        )
    } else if base.len() > 0 && !(base.last() == 0x5C || base.last() == 0x2F) && !(prefix_of(base) matches Some(
        PrefixKind::Disk(_),
    ) && plen_of(base) == base.len()) {
        base + seq![0x5Cu16] + name
    } else {
        base + name
    }
}

/// `p` with its file name replaced by `name`, as `Path::with_file_name`
/// gives it: the parent when the last component is a name, else `p` itself,
/// with `name` pushed onto it.
pub open spec fn beside(p: Seq<u16>, name: Seq<u16>) -> Seq<u16> {
    let base = if has_file_name(p) {
        path_parent(p)->0
    } else {
        p
    };
    pushed(base, name)
}

fn slice_of(p: &Vec<u16>, s: usize, e: usize) -> (r: Vec<u16>)
    requires
        s <= e <= p.len(),
    ensures
        r@ == p@.subrange(s as int, e as int),
{
    let mut r: Vec<u16> = Vec::new();
    let mut i = s;
    while i < e
        invariant
            s <= i <= e <= p.len(),
            r@ == p@.subrange(s as int, i as int),
        decreases e - i,
    {
        r.push(p[i]);
        i = i + 1;
        assert(r@ =~= p@.subrange(s as int, i as int));
    }
    r
}

fn append_units(r: &mut Vec<u16>, x: &Vec<u16>)
    ensures
        final(r)@ == old(r)@ + x@,
{
    let ghost start = r@;
    let mut i: usize = 0;
    while i < x.len()
        invariant
            i <= x.len(),
            r@ == start + x@.subrange(0, i as int),
        decreases x.len() - i,
    {
        r.push(x[i]);
        i = i + 1;
        assert(r@ =~= start + x@.subrange(0, i as int));
    }
    assert(x@.subrange(0, x.len() as int) =~= x@);
}

/// The non-empty pieces of a verbatim body from `from` on.
fn verbatim_texts(p: &Vec<u16>, from: usize) -> (r: Vec<Vec<u16>>)
    requires
        from <= p.len(),
    ensures
        units_list(r@) == texts_from(p@, from as int, from as int),
{
    let ghost goal = texts_from(p@, from as int, from as int);
    let mut parts: Vec<Vec<u16>> = Vec::new();
    let mut start = from;
    let mut i = from;
    assert(units_list(parts@) =~= Seq::<Seq<u16>>::empty());
    assert(Seq::<Seq<u16>>::empty() + goal =~= goal);
    while i < p.len()
        invariant
            from <= start <= i <= p.len(),
            units_list(parts@) + texts_from(p@, start as int, i as int) == goal,
        decreases p.len() - i,
    {
        let ghost kept = units_list(parts@);
        if p[i] == 0x5C {
            if i > start {
                parts.push(slice_of(p, start, i));
                assert(units_list(parts@) =~= kept + seq![p@.subrange(start as int, i as int)]);
            } else {
                assert(kept + Seq::<Seq<u16>>::empty() =~= kept);
            }
            assert(kept + texts_from(p@, start as int, i as int) =~= units_list(parts@) + texts_from(
                p@,
                i + 1,
                i + 1,
            ));
            i = i + 1;
            start = i;
        } else {
            i = i + 1;
        }
    }
    let ghost kept = units_list(parts@);
    if i > start {
        parts.push(slice_of(p, start, i));
        assert(units_list(parts@) =~= kept + seq![p@.subrange(start as int, i as int)]);
    } else {
        assert(kept + Seq::<Seq<u16>>::empty() =~= kept);
    }
    parts
}

/// `name` pushed onto `base`.
fn push_name(base: &Vec<u16>, name: &Vec<u16>) -> (r: Vec<u16>)
    ensures
        r@ == pushed(base@, name@),
{
    let (plen, body, verbatim, _, disk) = layout(base);
    let n = base.len();
    if verbatim {
        let mut parts = verbatim_texts(base, body);
        let ghost before = units_list(parts@);
        parts.push(slice_of(name, 0, name.len()));
        assert(name@.subrange(0, name.len() as int) =~= name@);
        assert(units_list(parts@) =~= before.push(name@));
        let ghost all = units_list(parts@);
        let mut r = head_of(base, plen);
        r.push(0x5C);
        let ghost head = r@;
        let mut k: usize = 0;
        while k < parts.len()
            invariant
                k <= parts.len(),
                all == units_list(parts@),
                r@ == head + joined(all.take(k as int)),
            decreases parts.len() - k,
        {
            proof {
                let next = all.take(k + 1);
                assert(next.drop_last() =~= all.take(k as int));
                assert(next.last() == parts@[k as int]@);
                if k == 0 {
                    assert(all.take(1) =~= seq![parts@[0]@]);
                    assert(all.take(0) =~= Seq::<Seq<u16>>::empty());
                }
            }
            if k > 0 {
                r.push(0x5C);
            }
            append_units(&mut r, &parts[k]);
            k = k + 1;
            assert(r@ =~= head + joined(all.take(k as int)));
        }
        assert(all.take(parts.len() as int) =~= all);
        r
    } else if n > 0 && !(base[n - 1] == 0x5C || base[n - 1] == 0x2F) && !(disk && plen == n) {
        let mut r = head_of(base, n);
        assert(base@.subrange(0, n as int) =~= base@);
        r.push(0x5C);
        append_units(&mut r, name);
        r
    } else {
        let mut r = head_of(base, n);
        assert(base@.subrange(0, n as int) =~= base@);
        append_units(&mut r, name);
        r
    }
}

/// `p` with its file name replaced by `name`, a plain name.
fn with_file_name(p: &Vec<u16>, name: &Vec<u16>) -> (r: Vec<u16>)
    requires
        plain_name(name@),
    ensures
        r@ == beside(p@, name@),
{
    let (_, body, verbatim, _, _) = layout(p);
    let n = p.len();
    let base = match last_piece_of(p, body, n, verbatim) {
        Some((s, e, cut)) => {
            if !(e - s == 1 && p[s] == 0x2E) && !(e - s == 2 && p[s] == 0x2E && p[s + 1] == 0x2E) {
                head_of(p, trimmed_end(p, body, cut, verbatim))
            } else {
                head_of(p, n)
            }
        },
        None => head_of(p, n),
    };
    assert(p@.subrange(0, n as int) =~= p@);
    push_name(&base, name)
}

/// The class factory: itself a COM object handed to the caller, so it keeps
/// the DLL loaded exactly like the objects it creates.
pub struct ClassFactory;

impl ClassFactory {
    pub fn new(module: &mut Module) -> (r: ClassFactory)
        ensures
            final(module)@ == old(module)@.created(),
    {
        module.object_created();
        ClassFactory
    }
}

/// The bitmap shown next to the menu items, as a GDI handle. Freed with the
/// object that owns it, so nothing accumulates.
pub struct MenuIcon(isize);

impl View for MenuIcon {
    type V = isize;

    closed spec fn view(&self) -> isize {
        self.0
    }
}

impl MenuIcon {
    /// Takes ownership of a freshly built bitmap, if one could be built.
    pub fn new(built: Option<isize>) -> (r: Option<MenuIcon>)
        ensures
            r is Some <==> built is Some,
            r matches Some(i) ==> i@ == built->0,
    {
        match built {
            Some(b) => Some(MenuIcon(b)),
            None => None,
        }
    }

    pub fn bitmap(&self) -> (r: isize)
        ensures
            r == self@,
    {
        self.0
    }
}

/// One context-menu handler instance: the selection it was initialised with,
/// the items it put in the menu, and the icon bitmap it owns.
pub struct MenuExt {
    paths: Vec<Vec<u16>>,
    items: Vec<Item>,
    icon: Option<MenuIcon>,
}

impl MenuExt {
    pub closed spec fn selection(&self) -> Seq<Seq<u16>> {
        units_list(self.paths@)
    }

    pub closed spec fn shown(&self) -> Seq<Item> {
        self.items@
    }

    pub closed spec fn icon_handle(&self) -> Option<isize> {
        match self.icon {
            Some(i) => Some(i@),
            None => None,
        }
    }

    pub fn new(module: &mut Module) -> (r: MenuExt)
        ensures
            final(module)@ == old(module)@.created(),
            r.selection() == Seq::<Seq<u16>>::empty(),
            r.shown() == Seq::<Item>::empty(),
            r.icon_handle() is None,
    {
        module.object_created();
        let r = MenuExt { paths: Vec::new(), items: Vec::new(), icon: None };
        assert(r.selection() =~= Seq::<Seq<u16>>::empty());
        r
    }

    /// `IShellExtInit::Initialize`: keeps the selection; an empty one is
    /// refused and changes nothing.
    pub fn initialize(&mut self, paths: Vec<Vec<u16>>) -> (r: bool)
        ensures
            r == (paths@.len() > 0),
            r ==> final(self).selection() == units_list(paths@),
            !r ==> final(self).selection() == old(self).selection(),
            final(self).shown() == old(self).shown(),
            final(self).icon_handle() == old(self).icon_handle(),
    {
        if paths.len() == 0 {
            return false;
        }
        self.paths = paths;
        true
    }

    pub fn lock_paths(&self) -> (r: Vec<Vec<u16>>)
        ensures
            units_list(r@) == self.selection(),
    {
        copy_list(&self.paths)
    }

    pub fn lock_items(&self) -> (r: Vec<Item>)
        ensures
            r@ == self.shown(),
    {
        let r = self.items.clone();
        assert(r@ =~= self.items@);
        r
    }

    /// The icon bitmap, built at most once per object: `build` runs only
    /// while there is no bitmap yet, and a failed build is tried again next
    /// time.
    pub fn bitmap<F: FnOnce() -> Option<isize>>(&mut self, build: F) -> (r: Option<isize>)
        requires
            call_requires(build, ()),
        ensures
            old(self).icon_handle() is Some ==> r == old(self).icon_handle() && final(self).icon_handle()
                == old(self).icon_handle(),
            old(self).icon_handle() is None ==> call_ensures(build, (), r) && final(self).icon_handle()
                == r,
            final(self).selection() == old(self).selection(),
            final(self).shown() == old(self).shown(),
    {
        if self.icon.is_none() {
            let built = build();
            self.icon = MenuIcon::new(built);
        }
        match &self.icon {
            Some(i) => Some(i.bitmap()),
            None => None,
        }
    }

    /// Hands the icon over for freeing, leaving none.
    pub fn take_icon(&mut self) -> (r: Option<MenuIcon>)
        ensures
            r matches Some(i) ==> old(self).icon_handle() == Some(i@),
            r is None <==> old(self).icon_handle() is None,
            final(self).icon_handle() is None,
            final(self).selection() == old(self).selection(),
            final(self).shown() == old(self).shown(),
    {
        self.icon.take()
    }

    /// Records the items that made it into the menu, in command-id order.
    pub fn remember(&mut self, entries: &Vec<MenuEntry>)
        ensures
            final(self).shown() == Seq::new(entries@.len(), |i: int| entries@[i].item),
            final(self).selection() == old(self).selection(),
            final(self).icon_handle() == old(self).icon_handle(),
    {
        let mut items: Vec<Item> = Vec::new();
        let mut i: usize = 0;
        while i < entries.len()
            invariant
                i <= entries.len(),
                items@ == Seq::new(i as nat, |j: int| entries@[j].item),
            decreases entries.len() - i,
        {
            items.push(entries[i].item);
            i = i + 1;
            assert(items@ =~= Seq::new(i as nat, |j: int| entries@[j].item));
        }
        self.items = items;
    }

    /// `IContextMenu::InvokeCommand`: the item to run, if the command names
    /// an enabled one of the items shown.
    pub fn invoked(&self, verb: &Verb) -> (r: Option<Item>)
        ensures
            r == chosen_spec(self.shown(), *verb),
    {
        chosen_item(&self.items, verb)
    }

    /// `IContextMenu::GetCommandString`: what to write into the caller's
    /// buffer of `capacity` units, or `None` for an invalid request.
    pub fn command_string(&self, id: usize, kind: u32, capacity: u32) -> (r: Option<Vec<u16>>)
        ensures
            r is None <==> command_string_spec(self.shown(), id, kind, capacity) is None,
            r matches Some(v) ==> Some(v@) == command_string_spec(self.shown(), id, kind, capacity),
    {
        command_string(&self.items, id, kind, capacity)
    }
}

} // verus!
