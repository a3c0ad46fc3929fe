//! Platform-agnostic menu model.
//!
//! A [`Menu`] is a closure-free tree of [`MenuItem`]s describing a menu bar or
//! a context menu. Actionable items carry a stable [`MenuId`]; their handlers
//! are registered separately, keyed by that id, so the model stays cheap to
//! clone and to rebuild on every render. The model is generic over the
//! keyboard accelerator type `A` that the platform layer understands.
use vstd::prelude::*;

verus! {

/// Stable identifier for an actionable menu item. Adopters mint their own ids
/// (one per command) and register a handler for each.
#[derive(Copy, Clone, Debug, PartialEq, Eq, Hash, Structural)]
pub struct MenuId(pub u64);

/// An actionable menu command.
#[derive(Clone, Debug)]
pub struct MenuAction<A> {
    /// Routing id; activation dispatches to the handler registered for it.
    pub id: MenuId,
    /// Display and accessible label.
    pub label: String,
    /// Optional keyboard accelerator.
    pub accelerator: Option<A>,
    /// Greyed out and not activatable when `false`.
    pub enabled: bool,
    /// Shows a check mark when `true` (toggle commands).
    pub checked: bool,
}

impl<A> MenuAction<A> {
    /// An enabled, unchecked action with no accelerator.
    pub fn new(id: MenuId, label: &str) -> (r: MenuAction<A>)
        ensures
            r.id == id,
            r.label@ == label@,
            r.accelerator is None,
            r.enabled,
            !r.checked,
    {
        MenuAction { id, label: label.to_owned(), accelerator: None, enabled: true, checked: false }
    }

    /// Attach a keyboard accelerator.
    pub fn accelerator(self, accel: A) -> (r: MenuAction<A>)
        ensures
            r == (MenuAction { accelerator: Some(accel), ..self }),
    {
        MenuAction { accelerator: Some(accel), ..self }
    }

    /// Set the enabled state (default `true`).
    pub fn enabled(self, enabled: bool) -> (r: MenuAction<A>)
        ensures
            r == (MenuAction { enabled, ..self }),
    {
        MenuAction { enabled, ..self }
    }

    /// Set the checked state (default `false`).
    pub fn checked(self, checked: bool) -> (r: MenuAction<A>)
        ensures
            r == (MenuAction { checked, ..self }),
    {
        MenuAction { checked, ..self }
    }
}

/// A nested submenu with its own title and child items.
#[derive(Debug)]
pub struct SubMenu<A> {
    /// Submenu title.
    pub label: String,
    /// Child menu.
    pub menu: Menu<A>,
    /// Greyed out when `false`.
    pub enabled: bool,
}

/// One entry of a [`Menu`]: a command, a submenu, or a separator.
#[derive(Debug)]
pub enum MenuItem<A> {
    /// Actionable command.
    Action(MenuAction<A>),
    /// Nested submenu.
    Submenu(SubMenu<A>),
    /// Horizontal separator line.
    Separator,
}

/// A menu: an ordered list of [`MenuItem`]s.
#[derive(Debug)]
pub struct Menu<A> {
    items: Vec<MenuItem<A>>,
}

impl<A> View for Menu<A> {
    /// The top-level items, in order.
    type V = Seq<MenuItem<A>>;

    closed spec fn view(&self) -> Seq<MenuItem<A>> {
        self.items@
    }
}

/// The first action carrying `id` in `items`, depth-first: an action matches
/// directly, a submenu is searched before the items after it.
pub closed spec fn find_in<A>(items: Seq<MenuItem<A>>, id: MenuId) -> Option<MenuAction<A>>
    decreases items,
{
    if items.len() == 0 {
        None
    } else {
        let first = items[0];
        proof {
            assert(decreases_to!(items => first));
        }
        match first {
            MenuItem::Action(a) => if a.id == id {
                Some(a)
            } else {
                find_in(items.drop_first(), id)
            },
            MenuItem::Submenu(s) => {
                proof {
                    assert(decreases_to!(items => s.menu.items@));
                }
                match find_in(s.menu.items@, id) {
                    Some(a) => Some(a),
                    None => find_in(items.drop_first(), id),
                }
            },
            MenuItem::Separator => find_in(items.drop_first(), id),
        }
    }
}

impl<A> Menu<A> {
    /// An empty menu.
    pub fn new() -> (r: Menu<A>)
        ensures
            r@ == Seq::<MenuItem<A>>::empty(),
    {
        Menu { items: Vec::new() }
    }

    /// Append an actionable command.
    pub fn action(self, action: MenuAction<A>) -> (r: Menu<A>)
        ensures
            r@ == self@.push(MenuItem::Action(action)),
    {
        let mut s = self;
        s.items.push(MenuItem::Action(action));
        s
    }

    /// Append an enabled submenu titled `label`.
    pub fn submenu(self, label: &str, menu: Menu<A>) -> (r: Menu<A>)
        ensures
            r@.len() == self@.len() + 1,
            r@.take(self@.len() as int) == self@,
            r@.last() matches MenuItem::Submenu(s) && s.label@ == label@ && s.menu == menu && s.enabled,
    {
        let mut s = self;
        s.items.push(MenuItem::Submenu(SubMenu { label: label.to_owned(), menu, enabled: true }));
        s
    }

    /// Append a separator line.
    pub fn separator(self) -> (r: Menu<A>)
        ensures
            r@ == self@.push(MenuItem::Separator),
    {
        let mut s = self;
        s.items.push(MenuItem::Separator);
        s
    }

    /// The top-level items, in order.
    pub fn items(&self) -> (r: &[MenuItem<A>])
        ensures
            r@ == self@,
    {
        self.items.as_slice()
    }

    /// The action carrying `id`, searching submenus recursively, depth-first.
    pub fn find_action(&self, id: MenuId) -> (r: Option<&MenuAction<A>>)
        ensures
            match r {
                Some(a) => find_in(self@, id) == Some(*a),
                None => find_in(self@, id) is None,
            },
        decreases self@,
    {
        let ghost all = self.items@;
        let mut i: usize = 0;
        proof {
            assert(all.skip(0) =~= all);
        }
        while i < self.items.len()
            invariant
                i <= self.items@.len(),
                all == self.items@,
                find_in(all, id) == find_in(all.skip(i as int), id),
            decreases self.items@.len() - i,
        {
            let item = &self.items[i];
            let ghost rest = all.skip(i as int);
            proof {
                assert(rest[0] == *item);
                assert(rest.drop_first() =~= all.skip(i + 1));
            }
            match item {
                MenuItem::Action(a) => {
                    if a.id == id {
                        return Some(a);
                    }
                },
                MenuItem::Submenu(s) => {
                    proof {
                        assert(decreases_to!(self@ => s.menu@));
                    }
                    match s.menu.find_action(id) {
                        Some(found) => {
                            return Some(found);
                        },
                        None => {},
                    }
                },
                MenuItem::Separator => {},
            }
            i = i + 1;
        }
        None
    }

    /// Whether the action carrying `id` is enabled. An id not in this menu
    /// counts as enabled: the handler registry may outlive a particular menu,
    /// so routing decides.
    pub fn is_enabled(&self, id: MenuId) -> (r: bool)
        ensures
            r == match find_in(self@, id) {
                Some(a) => a.enabled,
                None => true,
            },
    {
        match self.find_action(id) {
            Some(a) => a.enabled,
            None => true,
        }
    }
}

/// `b` copies the action `a`: same id, label and flags, the accelerator cloned.
pub open spec fn action_copied<A: Clone>(a: MenuAction<A>, b: MenuAction<A>) -> bool {
    &&& b.id == a.id
    &&& b.label@ == a.label@
    &&& b.enabled == a.enabled
    &&& b.checked == a.checked
    &&& match a.accelerator {
        Some(x) => b.accelerator matches Some(y) && cloned::<A>(x, y),
        None => b.accelerator is None,
    }
}

/// `y` copies the item `x`, a submenu with all it holds.
pub closed spec fn item_copied<A: Clone>(x: MenuItem<A>, y: MenuItem<A>) -> bool
    decreases x,
{
    match x {
        MenuItem::Action(a) => y matches MenuItem::Action(b) && action_copied(a, b),
        MenuItem::Submenu(s) => {
            proof {
                assert(decreases_to!(x => s.menu.items@));
            }
            y matches MenuItem::Submenu(t) && t.label@ == s.label@ && t.enabled == s.enabled && items_copied(
                s.menu.items@,
                t.menu.items@,
            )
        },
        MenuItem::Separator => y is Separator,
    }
}

/// `b` copies the items `a` one by one.
pub closed spec fn items_copied<A: Clone>(a: Seq<MenuItem<A>>, b: Seq<MenuItem<A>>) -> bool
    decreases a,
{
    if a.len() == 0 {
        b.len() == 0
    } else {
        proof {
            assert(decreases_to!(a => a[0]));
        }
        &&& b.len() > 0
        &&& item_copied(a[0], b[0])
        &&& items_copied(a.drop_first(), b.drop_first())
    }
}

/// Copying one more item onto copies keeps them copies.
proof fn lemma_copied_push<A: Clone>(a: Seq<MenuItem<A>>, b: Seq<MenuItem<A>>, x: MenuItem<A>, y: MenuItem<A>)
    requires
        items_copied(a, b),
        item_copied(x, y),
    ensures
        items_copied(a.push(x), b.push(y)),
    decreases a.len(),
{
    if a.len() == 0 {
        assert(a.push(x).drop_first() =~= a);
        assert(b.push(y).drop_first() =~= b);
    } else {
        lemma_copied_push(a.drop_first(), b.drop_first(), x, y);
        assert(a.push(x).drop_first() =~= a.drop_first().push(x));
        assert(b.push(y).drop_first() =~= b.drop_first().push(y));
    }
}

/// A copy of `x`, its accelerator cloned.
fn copy_action<A: Clone>(x: &MenuAction<A>) -> (y: MenuAction<A>)
    ensures
        action_copied(*x, y),
{
    let accelerator = match &x.accelerator {
        Some(a) => Some(a.clone()),
        None => None,
    };
    MenuAction { id: x.id, label: x.label.clone(), accelerator, enabled: x.enabled, checked: x.checked }
}

/// A copy of `x`, submenus included.
fn copy_item<A: Clone>(x: &MenuItem<A>) -> (y: MenuItem<A>)
    ensures
        item_copied(*x, y),
    decreases *x,
{
    match x {
        MenuItem::Action(a) => MenuItem::Action(copy_action(a)),
        MenuItem::Submenu(s) => {
            proof {
                assert(decreases_to!(*x => s.menu.items@));
            }
            let items = copy_items(&s.menu.items);
            MenuItem::Submenu(SubMenu { label: s.label.clone(), menu: Menu { items }, enabled: s.enabled })
        },
        MenuItem::Separator => MenuItem::Separator,
    }
}

/// A copy of `items`, one item at a time.
fn copy_items<A: Clone>(items: &Vec<MenuItem<A>>) -> (r: Vec<MenuItem<A>>)
    ensures
        items_copied(items@, r@),
    decreases items@,
{
    let mut out: Vec<MenuItem<A>> = Vec::new();
    let mut i: usize = 0;
    proof {
        assert(items@.take(0) =~= Seq::<MenuItem<A>>::empty());
    }
    while i < items.len()
        invariant
            i <= items@.len(),
            items_copied(items@.take(i as int), out@),
        decreases items@.len() - i,
    {
        proof {
            assert(decreases_to!(items@ => items@[i as int]));
        }
        let y = copy_item(&items[i]);
        proof {
            lemma_copied_push(items@.take(i as int), out@, items@[i as int], y);
            assert(items@.take(i as int).push(items@[i as int]) =~= items@.take(i + 1));
        }
        out.push(y);
        i = i + 1;
    }
    proof {
        assert(items@.take(items@.len() as int) =~= items@);
    }
    out
}

impl<A: Clone> Clone for Menu<A> {
    /// A copy of the whole menu tree, each accelerator cloned.
    fn clone(&self) -> (r: Menu<A>)
        ensures
            items_copied(self@, r@),
    {
        Menu { items: copy_items(&self.items) }
    }
}

impl<A: Clone> Clone for MenuItem<A> {
    /// A copy of the item, a submenu with all it holds.
    fn clone(&self) -> (r: MenuItem<A>)
        ensures
            item_copied(*self, r),
    {
        copy_item(self)
    }
}

impl<A: Clone> Clone for SubMenu<A> {
    /// A copy of the submenu with all it holds.
    fn clone(&self) -> (r: SubMenu<A>)
        ensures
            r.label@ == self.label@,
            r.enabled == self.enabled,
            items_copied(self.menu@, r.menu@),
    {
        SubMenu { label: self.label.clone(), menu: Menu { items: copy_items(&self.menu.items) }, enabled: self.enabled }
    }
}

impl<A> Default for Menu<A> {
    fn default() -> (r: Menu<A>)
        ensures
            r@ == Seq::<MenuItem<A>>::empty(),
    {
        Menu::new()
    }
}

} // verus!
