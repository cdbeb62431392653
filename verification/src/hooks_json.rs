//! The project's `hooks.json` as far as the installer reads and changes it:
//! the list of Stop hooks, under `hooks.Stop` or, in the older layout, under
//! a top-level `Stop`. Every other part of the document is carried along as
//! JSON text.
use vstd::prelude::*;
use crate::state_data::opt_view;

verus! {

/// A hook of a group: its JSON text, and its command when it is an object
/// with a string `command`.
#[derive(Clone, Debug)]
pub struct HookEntry {
    pub command: Option<String>,
    pub json: String,
}

pub struct EntrySpec {
    pub command: Option<Seq<char>>,
    pub json: Seq<char>,
}

impl View for HookEntry {
    type V = EntrySpec;

    open spec fn view(&self) -> EntrySpec {
        EntrySpec { command: opt_view(self.command), json: self.json@ }
    }
}

/// An item of a Stop list: its command when it is an object with a string
/// `command`; its JSON text (none for a hook this library added, which is
/// `{"type": "command", "command": <command>}`); and, when it is an object
/// whose `hooks` is a list, the hooks of that group.
#[derive(Clone, Debug)]
pub struct StopItem {
    pub command: Option<String>,
    pub json: Option<String>,
    pub hooks: Option<Vec<HookEntry>>,
}

pub struct ItemSpec {
    pub command: Option<Seq<char>>,
    pub json: Option<Seq<char>>,
    pub hooks: Option<Seq<EntrySpec>>,
}

pub open spec fn entries_view(v: Seq<HookEntry>) -> Seq<EntrySpec> {
    v.map_values(|e: HookEntry| e@)
}

impl View for StopItem {
    type V = ItemSpec;

    open spec fn view(&self) -> ItemSpec {
        ItemSpec {
            command: opt_view(self.command),
            json: opt_view(self.json),
            hooks: match self.hooks {
                Some(v) => Some(entries_view(v@)),
                None => None,
            },
        }
    }
}

pub open spec fn items_view(v: Seq<StopItem>) -> Seq<ItemSpec> {
    v.map_values(|i: StopItem| i@)
}

/// A `Stop` key: absent, a list, or some other JSON value.
#[derive(Debug)]
pub enum StopField {
    Absent,
    List(Vec<StopItem>),
    Other(String),
}

pub enum StopFieldSpec {
    Absent,
    List(Seq<ItemSpec>),
    Other(Seq<char>),
}

impl View for StopField {
    type V = StopFieldSpec;

    open spec fn view(&self) -> StopFieldSpec {
        match self {
            StopField::Absent => StopFieldSpec::Absent,
            StopField::List(v) => StopFieldSpec::List(items_view(v@)),
            StopField::Other(s) => StopFieldSpec::Other(s@),
        }
    }
}

/// The `hooks` key of the document: absent, a table (its JSON text, none for
/// a table this library made; its `Stop`; whether it has other keys), or
/// some other JSON value.
#[derive(Debug)]
pub enum HooksField {
    Absent,
    Table { json: Option<String>, stop: StopField, others: bool },
    Other(String),
}

pub enum HooksFieldSpec {
    Absent,
    Table { json: Option<Seq<char>>, stop: StopFieldSpec, others: bool },
    Other(Seq<char>),
}

impl View for HooksField {
    type V = HooksFieldSpec;

    open spec fn view(&self) -> HooksFieldSpec {
        match self {
            HooksField::Absent => HooksFieldSpec::Absent,
            HooksField::Table { json, stop, others } => HooksFieldSpec::Table {
                json: opt_view(*json),
                stop: stop@,
                others: *others,
            },
            HooksField::Other(s) => HooksFieldSpec::Other(s@),
        }
    }
}

/// The whole document: whether it is an object, its JSON text (none for an
/// object this library made), its `hooks` and its top-level `Stop`.
#[derive(Debug)]
pub struct HooksDoc {
    pub object: bool,
    pub json: Option<String>,
    pub hooks: HooksField,
    pub stop: StopField,
}

pub struct DocSpec {
    pub object: bool,
    pub json: Option<Seq<char>>,
    pub hooks: HooksFieldSpec,
    pub stop: StopFieldSpec,
}

impl View for HooksDoc {
    type V = DocSpec;

    open spec fn view(&self) -> DocSpec {
        DocSpec { object: self.object, json: opt_view(self.json), hooks: self.hooks@, stop: self.stop@ }
    }
}

// ---------------------------------------------------------------------------
// Matching and filtering
// ---------------------------------------------------------------------------

/// Whether a hook runs the command.
pub open spec fn entry_matches(e: EntrySpec, c: Seq<char>) -> bool {
    e.command == Some(c)
}

/// Whether an item itself runs the command.
pub open spec fn item_matches(i: ItemSpec, c: Seq<char>) -> bool {
    i.command == Some(c)
}

fn command_is(cmd: &Option<String>, c: &str) -> (r: bool)
    ensures
        r == (opt_view(*cmd) == Some(c@)),
{
    match cmd {
        Some(s) => crate::text::str_eq(s.as_str(), c),
        None => false,
    }
}

/// Whether a hook runs the command.
pub fn hook_matches(entry: &HookEntry, command: &str) -> (r: bool)
    ensures
        r == entry_matches(entry@, command@),
{
    command_is(&entry.command, command)
}

/// The hooks of a group that do not run the command, in order.
pub open spec fn filter_entries(es: Seq<EntrySpec>, c: Seq<char>) -> Seq<EntrySpec>
    decreases es.len(),
{
    if es.len() == 0 {
        Seq::empty()
    } else {
        let r = filter_entries(es.drop_last(), c);
        if entry_matches(es.last(), c) {
            r
        } else {
            r.push(es.last())
        }
    }
}

/// A Stop list without the command: a group keeps its hooks that do not run
/// it and goes when none is left; another item goes when it runs it.
pub open spec fn filter_items_spec(items: Seq<ItemSpec>, c: Seq<char>) -> Seq<ItemSpec>
    decreases items.len(),
{
    if items.len() == 0 {
        Seq::empty()
    } else {
        let r = filter_items_spec(items.drop_last(), c);
        let it = items.last();
        match it.hooks {
            Some(hs) => {
                let f = filter_entries(hs, c);
                if f.len() > 0 {
                    r.push(ItemSpec { hooks: Some(f), ..it })
                } else {
                    r
                }
            },
            None => if item_matches(it, c) {
                r
            } else {
                r.push(it)
            },
        }
    }
}

/// Whether filtering leaves an item as it is.
pub open spec fn kept_as_is(it: ItemSpec, c: Seq<char>) -> bool {
    match it.hooks {
        Some(hs) => hs.len() > 0 && filter_entries(hs, c).len() == hs.len(),
        None => !item_matches(it, c),
    }
}

proof fn lemma_filter_entries(es: Seq<EntrySpec>, c: Seq<char>)
    ensures
        filter_entries(es, c).len() <= es.len(),
        filter_entries(es, c).len() == es.len() ==> filter_entries(es, c) == es,
        forall|k: int| 0 <= k < filter_entries(es, c).len() ==> !entry_matches(#[trigger] filter_entries(es, c)[k], c),
    decreases es.len(),
{
    if es.len() > 0 {
        lemma_filter_entries(es.drop_last(), c);
        let r = filter_entries(es.drop_last(), c);
        if !entry_matches(es.last(), c) && r.len() == es.drop_last().len() {
            assert(r.push(es.last()) =~= es);
        }
        assert forall|k: int| 0 <= k < filter_entries(es, c).len() implies !entry_matches(
            #[trigger] filter_entries(es, c)[k],
            c,
        ) by {
            if k < r.len() {
                assert(filter_entries(es, c)[k] == r[k]);
            }
        }
    }
}

proof fn lemma_filter_items(items: Seq<ItemSpec>, c: Seq<char>)
    ensures
        filter_items_spec(items, c).len() <= items.len(),
        (filter_items_spec(items, c) == items) <==> (forall|k: int|
            0 <= k < items.len() ==> kept_as_is(#[trigger] items[k], c)),
    decreases items.len(),
{
    if items.len() == 0 {
        assert(filter_items_spec(items, c) =~= items);
    } else {
        let init = items.drop_last();
        let it = items.last();
        lemma_filter_items(init, c);
        let r = filter_items_spec(init, c);
        let res = filter_items_spec(items, c);
        let all = forall|k: int| 0 <= k < items.len() ==> kept_as_is(#[trigger] items[k], c);
        let all_init = forall|k: int| 0 <= k < init.len() ==> kept_as_is(#[trigger] init[k], c);
        assert(all <==> (all_init && kept_as_is(it, c))) by {
            if all {
                assert forall|k: int| 0 <= k < init.len() implies kept_as_is(#[trigger] init[k], c) by {
                    assert(init[k] == items[k]);
                }
                assert(kept_as_is(items[items.len() - 1], c));
            }
            if all_init && kept_as_is(it, c) {
                assert forall|k: int| 0 <= k < items.len() implies kept_as_is(#[trigger] items[k], c) by {
                    if k < init.len() {
                        assert(init[k] == items[k]);
                    }
                }
            }
        }
        match it.hooks {
            Some(hs) => {
                lemma_filter_entries(hs, c);
            },
            None => {},
        }
        if all_init && kept_as_is(it, c) {
            assert(r == init);
            match it.hooks {
                Some(hs) => {
                    assert(ItemSpec { hooks: Some(filter_entries(hs, c)), ..it } == it);
                },
                None => {},
            }
            assert(res =~= items);
        } else if res == items {
            // the last item is kept and unchanged, and so is the rest
            if res.len() == r.len() {
                assert(false);
            } else {
                assert(res.drop_last() =~= r);
                assert(items.drop_last() == init);
                assert(r == init);
                match it.hooks {
                    Some(hs) => {
                        assert(res.last().hooks == Some(filter_entries(hs, c)));
                        assert(filter_entries(hs, c).len() == hs.len());
                    },
                    None => {},
                }
                assert(false);
            }
        }
    }
}

fn copy_opt(o: &Option<String>) -> (r: Option<String>)
    ensures
        opt_view(r) == opt_view(*o),
{
    match o {
        Some(s) => Some(s.clone()),
        None => None,
    }
}

fn copy_entry(e: &HookEntry) -> (r: HookEntry)
    ensures
        r@ == e@,
{
    HookEntry { command: copy_opt(&e.command), json: e.json.clone() }
}

fn filter_entries_exec(es: &Vec<HookEntry>, command: &str) -> (r: Vec<HookEntry>)
    ensures
        entries_view(r@) == filter_entries(entries_view(es@), command@),
{
    let ghost ev = entries_view(es@);
    let mut out: Vec<HookEntry> = Vec::new();
    let mut i: usize = 0;
    while i < es.len()
        invariant
            i <= es@.len(),
            ev == entries_view(es@),
            entries_view(out@) == filter_entries(ev.take(i as int), command@),
        decreases es@.len() - i,
    {
        proof {
            assert(ev.take(i + 1).drop_last() =~= ev.take(i as int));
            assert(ev.take(i + 1).last() == es@[i as int]@);
        }
        if !hook_matches(&es[i], command) {
            let ghost before = entries_view(out@);
            out.push(copy_entry(&es[i]));
            assert(entries_view(out@) =~= before.push(es@[i as int]@));
        }
        i = i + 1;
    }
    assert(ev.take(es@.len() as int) =~= ev);
    out
}

fn copy_entries(es: &Vec<HookEntry>) -> (r: Vec<HookEntry>)
    ensures
        entries_view(r@) == entries_view(es@),
{
    let mut out: Vec<HookEntry> = Vec::new();
    let mut i: usize = 0;
    while i < es.len()
        invariant
            i <= es@.len(),
            entries_view(out@) == entries_view(es@).take(i as int),
        decreases es@.len() - i,
    {
        let e = copy_entry(&es[i]);
        let ghost before = entries_view(out@);
        out.push(e);
        assert(entries_view(out@) =~= before.push(e@));
        assert(entries_view(out@) =~= entries_view(es@).take(i + 1));
        i = i + 1;
    }
    assert(entries_view(es@).take(es@.len() as int) =~= entries_view(es@));
    out
}

fn copy_item(it: &StopItem) -> (r: StopItem)
    ensures
        r@ == it@,
{
    StopItem {
        command: copy_opt(&it.command),
        json: copy_opt(&it.json),
        hooks: match &it.hooks {
            Some(v) => Some(copy_entries(v)),
            None => None,
        },
    }
}

/// Removes the command from a Stop list; says whether the list changed.
pub fn filter_items(items: &Vec<StopItem>, command: &str) -> (r: (Vec<StopItem>, bool))
    ensures
        items_view(r.0@) == filter_items_spec(items_view(items@), command@),
        r.1 == (filter_items_spec(items_view(items@), command@) != items_view(items@)),
{
    let ghost iv = items_view(items@);
    let mut out: Vec<StopItem> = Vec::new();
    let mut all_kept = true;
    let mut i: usize = 0;
    while i < items.len()
        invariant
            i <= items@.len(),
            iv == items_view(items@),
            items_view(out@) == filter_items_spec(iv.take(i as int), command@),
            all_kept == forall|k: int| 0 <= k < i ==> kept_as_is(#[trigger] iv[k], command@),
        decreases items@.len() - i,
    {
        let ghost t = iv.take(i + 1);
        proof {
            assert(t.drop_last() =~= iv.take(i as int));
            assert(t.last() == items@[i as int]@);
        }
        let it = &items[i];
        let ghost before = items_view(out@);
        let kept: bool;
        match &it.hooks {
            Some(hs) => {
                let f = filter_entries_exec(hs, command);
                proof {
                    lemma_filter_entries(entries_view(hs@), command@);
                }
                kept = hs.len() > 0 && f.len() == hs.len();
                if f.len() > 0 {
                    let item = StopItem { command: copy_opt(&it.command), json: copy_opt(&it.json), hooks: Some(f) };
                    out.push(item);
                    assert(items_view(out@) =~= before.push(ItemSpec { hooks: Some(filter_entries(entries_view(hs@), command@)), ..it@ }));
                }
            },
            None => {
                let m = command_is(&it.command, command);
                kept = !m;
                if !m {
                    out.push(copy_item(it));
                    assert(items_view(out@) =~= before.push(it@));
                }
            },
        }
        assert(kept == kept_as_is(iv[i as int], command@));
        proof {
            assert forall|k: int| 0 <= k < i + 1 implies (kept_as_is(#[trigger] iv[k], command@) <==> (if k < i {
                kept_as_is(iv[k], command@)
            } else {
                kept
            })) by {}
        }
        all_kept = all_kept && kept;
        i = i + 1;
    }
    proof {
        assert(iv.take(items@.len() as int) =~= iv);
        lemma_filter_items(iv, command@);
    }
    (out, !all_kept)
}

// ---------------------------------------------------------------------------
// Removing a hook
// ---------------------------------------------------------------------------

/// A `Stop` key after the command is removed from it, and whether it
/// changed; a list that is left empty goes.
pub open spec fn remove_from_stop(s: StopFieldSpec, c: Seq<char>) -> (StopFieldSpec, bool) {
    match s {
        StopFieldSpec::List(items) => {
            let f = filter_items_spec(items, c);
            if f != items {
                if f.len() == 0 {
                    (StopFieldSpec::Absent, true)
                } else {
                    (StopFieldSpec::List(f), true)
                }
            } else {
                (s, false)
            }
        },
        _ => (s, false),
    }
}

/// The document after `hooks remove`, and whether it changed: the command
/// leaves `hooks.Stop` and the top-level `Stop`; a `hooks` table left with
/// nothing in it goes. A document that is not an object stays as it is.
pub open spec fn remove_hook_spec(d: DocSpec, c: Seq<char>) -> (DocSpec, bool) {
    if !d.object {
        (d, false)
    } else {
        let (hooks, ch1) = match d.hooks {
            HooksFieldSpec::Table { json, stop, others } => {
                let (st, ch) = remove_from_stop(stop, c);
                (
                    if st is Absent && !others {
                        HooksFieldSpec::Absent
                    } else {
                        HooksFieldSpec::Table { json, stop: st, others }
                    },
                    ch,
                )
            },
            _ => (d.hooks, false),
        };
        let (stop, ch2) = remove_from_stop(d.stop, c);
        (DocSpec { hooks, stop, ..d }, ch1 || ch2)
    }
}

fn remove_from_stop_exec(s: &mut StopField, command: &str) -> (changed: bool)
    ensures
        (final(s)@, changed) == remove_from_stop(old(s)@, command@),
{
    let mut tmp = StopField::Absent;
    std::mem::swap(s, &mut tmp);
    match tmp {
        StopField::List(items) => {
            let (f, changed) = filter_items(&items, command);
            if changed {
                if f.len() == 0 {
                    *s = StopField::Absent;
                } else {
                    *s = StopField::List(f);
                }
                true
            } else {
                *s = StopField::List(items);
                false
            }
        },
        other => {
            *s = other;
            false
        },
    }
}

/// Removes the command from the document's Stop hooks; says whether the
/// document changed (only then is it written back).
pub fn remove_hook(doc: &mut HooksDoc, command: &str) -> (r: bool)
    ensures
        (final(doc)@, r) == remove_hook_spec(old(doc)@, command@),
{
    if !doc.object {
        return false;
    }
    let mut h = HooksField::Absent;
    std::mem::swap(&mut doc.hooks, &mut h);
    let ch1 = match h {
        HooksField::Table { json, stop, others } => {
            let mut stop = stop;
            let ch = remove_from_stop_exec(&mut stop, command);
            let absent = match stop {
                StopField::Absent => true,
                _ => false,
            };
            if absent && !others {
                doc.hooks = HooksField::Absent;
            } else {
                doc.hooks = HooksField::Table { json, stop, others };
            }
            ch
        },
        other => {
            doc.hooks = other;
            false
        },
    };
    let mut st = StopField::Absent;
    std::mem::swap(&mut doc.stop, &mut st);
    let ch2 = remove_from_stop_exec(&mut st, command);
    doc.stop = st;
    ch1 || ch2
}

// ---------------------------------------------------------------------------
// Adding a hook
// ---------------------------------------------------------------------------

/// The documents on which making sure of a Stop list fails: an object whose
/// `hooks` is not a table, or whose `hooks.Stop` is neither absent nor a list.
pub open spec fn stop_list_ok(d: DocSpec) -> bool {
    !d.object || match d.hooks {
        HooksFieldSpec::Absent => true,
        HooksFieldSpec::Table { stop, .. } => !(stop is Other),
        HooksFieldSpec::Other(_) => false,
    }
}

/// The document once it surely has a `hooks.Stop` list: a document that is
/// not an object becomes an empty one; without a `hooks` table one is made,
/// taking over a top-level `Stop` list (a top-level `Stop` goes either way);
/// an absent `hooks.Stop` becomes an empty list.
pub open spec fn ensured_doc(d: DocSpec) -> DocSpec {
    let d0 = if !d.object {
        DocSpec { object: true, json: None, hooks: HooksFieldSpec::Absent, stop: StopFieldSpec::Absent }
    } else {
        d
    };
    let d1 = match d0.hooks {
        HooksFieldSpec::Absent => DocSpec {
            hooks: HooksFieldSpec::Table {
                json: None,
                stop: match d0.stop {
                    StopFieldSpec::List(l) => StopFieldSpec::List(l),
                    _ => StopFieldSpec::List(Seq::empty()),
                },
                others: false,
            },
            stop: StopFieldSpec::Absent,
            ..d0
        },
        _ => d0,
    };
    match d1.hooks {
        HooksFieldSpec::Table { json, stop, others } => match stop {
            StopFieldSpec::Absent => DocSpec {
                hooks: HooksFieldSpec::Table { json, stop: StopFieldSpec::List(Seq::empty()), others },
                ..d1
            },
            _ => d1,
        },
        _ => d1,
    }
}

/// Makes sure the document has a `hooks.Stop` list.
pub fn ensure_stop_list(doc: &mut HooksDoc)
    requires
        stop_list_ok(old(doc)@),
    ensures
        final(doc)@ == ensured_doc(old(doc)@),
{
    if !doc.object {
        doc.object = true;
        doc.json = None;
        doc.hooks = HooksField::Absent;
        doc.stop = StopField::Absent;
    }
    let mut h = HooksField::Absent;
    std::mem::swap(&mut doc.hooks, &mut h);
    match h {
        HooksField::Absent => {
            let mut st = StopField::Absent;
            std::mem::swap(&mut doc.stop, &mut st);
            let list = match st {
                StopField::List(l) => l,
                _ => Vec::new(),
            };
            proof {
                assert(items_view(list@) == match old(doc)@.stop {
                    StopFieldSpec::List(l) => l,
                    _ => Seq::<ItemSpec>::empty(),
                } || !old(doc)@.object);
            }
            doc.hooks = HooksField::Table { json: None, stop: StopField::List(list), others: false };
        },
        HooksField::Table { json, stop, others } => {
            let stop = match stop {
                StopField::Absent => StopField::List(Vec::new()),
                other => other,
            };
            doc.hooks = HooksField::Table { json, stop, others };
        },
        other => {
            doc.hooks = other;
        },
    }
    proof {
        assert(items_view(Seq::<StopItem>::empty()) =~= Seq::<ItemSpec>::empty());
    }
}

/// Whether some hook of a list runs the command.
pub open spec fn entries_mention(hs: Seq<EntrySpec>, c: Seq<char>) -> bool {
    exists|j: int| 0 <= j < hs.len() && entry_matches(#[trigger] hs[j], c)
}

/// Whether a group has a hook that runs the command.
pub open spec fn group_mentions(it: ItemSpec, c: Seq<char>) -> bool {
    match it.hooks {
        Some(hs) => entries_mention(hs, c),
        None => false,
    }
}

/// Whether an item runs the command, itself or through a hook of its group.
pub open spec fn item_mentions(it: ItemSpec, c: Seq<char>) -> bool {
    item_matches(it, c) || group_mentions(it, c)
}

/// Whether a Stop list already runs the command.
pub open spec fn mentions(items: Seq<ItemSpec>, c: Seq<char>) -> bool {
    exists|k: int| 0 <= k < items.len() && #[trigger] item_mentions(items[k], c)
}

/// The hook `hooks add` appends.
pub open spec fn new_hook(c: Seq<char>) -> ItemSpec {
    ItemSpec { command: Some(c), json: None, hooks: None }
}

/// The document after `hooks add`, and whether it changed: once it has a
/// `hooks.Stop` list, the command is appended to it unless the list already
/// runs it.
pub open spec fn add_hook_spec(d: DocSpec, c: Seq<char>) -> (DocSpec, bool) {
    let e = ensured_doc(d);
    match e.hooks {
        HooksFieldSpec::Table { json, stop, others } => match stop {
            StopFieldSpec::List(items) => if mentions(items, c) {
                (e, false)
            } else {
                (
                    DocSpec {
                        hooks: HooksFieldSpec::Table {
                            json,
                            stop: StopFieldSpec::List(items.push(new_hook(c))),
                            others,
                        },
                        ..e
                    },
                    true,
                )
            },
            _ => (e, false),
        },
        _ => (e, false),
    }
}

fn group_mentions_exec(it: &StopItem, command: &str) -> (r: bool)
    ensures
        r == group_mentions(it@, command@),
{
    match &it.hooks {
        Some(hs) => {
            let mut j: usize = 0;
            while j < hs.len()
                invariant
                    j <= hs@.len(),
                    it.hooks == Some(*hs),
                    forall|k: int| 0 <= k < j ==> !entry_matches(#[trigger] entries_view(hs@)[k], command@),
                decreases hs@.len() - j,
            {
                if hook_matches(&hs[j], command) {
                    let ghost ev = entries_view(hs@);
                    assert(it@.hooks == Some(ev));
                    assert(ev[j as int] == hs@[j as int]@);
                    assert(entry_matches(ev[j as int], command@));
                    assert(entries_mention(ev, command@));
                    return true;
                }
                j = j + 1;
            }
            assert(it@.hooks == Some(entries_view(hs@)));
            false
        },
        None => false,
    }
}

fn list_mentions(items: &Vec<StopItem>, command: &str) -> (r: bool)
    ensures
        r == mentions(items_view(items@), command@),
{
    let mut k: usize = 0;
    while k < items.len()
        invariant
            k <= items@.len(),
            forall|a: int| 0 <= a < k ==> !item_mentions(#[trigger] items_view(items@)[a], command@),
        decreases items@.len() - k,
    {
        if command_is(&items[k].command, command) || group_mentions_exec(&items[k], command) {
            assert(item_mentions(items_view(items@)[k as int], command@));
            return true;
        }
        k = k + 1;
    }
    false
}

/// Adds the command to the document's `hooks.Stop` list unless it is there;
/// says whether the document changed.
pub fn add_hook(doc: &mut HooksDoc, command: &str) -> (r: bool)
    requires
        stop_list_ok(old(doc)@),
    ensures
        (final(doc)@, r) == add_hook_spec(old(doc)@, command@),
{
    ensure_stop_list(doc);
    let mut h = HooksField::Absent;
    std::mem::swap(&mut doc.hooks, &mut h);
    match h {
        HooksField::Table { json, stop, others } => match stop {
            StopField::List(items) => {
                let mut items = items;
                let found = list_mentions(&items, command);
                if !found {
                    let ghost before = items_view(items@);
                    items.push(StopItem { command: Some(command.to_owned()), json: None, hooks: None });
                    assert(items_view(items@) =~= before.push(new_hook(command@)));
                }
                doc.hooks = HooksField::Table { json, stop: StopField::List(items), others };
                !found
            },
            other => {
                doc.hooks = HooksField::Table { json, stop: other, others };
                false
            },
        },
        other => {
            doc.hooks = other;
            false
        },
    }
}

// ---------------------------------------------------------------------------
// Laws of adding and removing hooks
// ---------------------------------------------------------------------------

/// Whether no item of a Stop list runs the command any more: every group
/// has hooks and none of them runs it, and no other item runs it.
pub open spec fn cleared(items: Seq<ItemSpec>, c: Seq<char>) -> bool {
    forall|k: int| 0 <= k < items.len() ==> kept_as_is(#[trigger] items[k], c)
}

/// Whether a `Stop` key has no hook that runs the command.
pub open spec fn stop_cleared(s: StopFieldSpec, c: Seq<char>) -> bool {
    match s {
        StopFieldSpec::List(items) => cleared(items, c),
        _ => true,
    }
}

proof fn lemma_filter_entries_none_match(es: Seq<EntrySpec>, c: Seq<char>)
    requires
        forall|k: int| 0 <= k < es.len() ==> !entry_matches(#[trigger] es[k], c),
    ensures
        filter_entries(es, c) == es,
    decreases es.len(),
{
    if es.len() > 0 {
        assert forall|k: int| 0 <= k < es.drop_last().len() implies !entry_matches(#[trigger] es.drop_last()[k], c) by {
            assert(es.drop_last()[k] == es[k]);
        }
        lemma_filter_entries_none_match(es.drop_last(), c);
        assert(!entry_matches(es[es.len() - 1], c));
        assert(es.drop_last().push(es.last()) =~= es);
    }
}

proof fn lemma_filter_items_cleared(items: Seq<ItemSpec>, c: Seq<char>)
    ensures
        cleared(filter_items_spec(items, c), c),
    decreases items.len(),
{
    if items.len() > 0 {
        lemma_filter_items_cleared(items.drop_last(), c);
        let r = filter_items_spec(items.drop_last(), c);
        let res = filter_items_spec(items, c);
        let it = items.last();
        assert forall|k: int| 0 <= k < res.len() implies kept_as_is(#[trigger] res[k], c) by {
            if k < r.len() {
                assert(res[k] == r[k]);
            } else {
                match it.hooks {
                    Some(hs) => {
                        let f = filter_entries(hs, c);
                        lemma_filter_entries(hs, c);
                        lemma_filter_entries_none_match(f, c);
                        assert(res[k] == ItemSpec { hooks: Some(f), ..it });
                    },
                    None => {
                        assert(res[k] == it);
                    },
                }
            }
        }
    }
}

/// After `hooks remove`, no hook left in `hooks.Stop` or in the top-level
/// `Stop` runs the command (a group's own `command` key aside, which the
/// removal does not look at).
pub proof fn lemma_remove_hook_clears(d: DocSpec, c: Seq<char>)
    requires
        d.object,
    ensures
        stop_cleared(remove_hook_spec(d, c).0.stop, c),
        match remove_hook_spec(d, c).0.hooks {
            HooksFieldSpec::Table { stop, .. } => stop_cleared(stop, c),
            _ => true,
        },
{
    match d.stop {
        StopFieldSpec::List(items) => {
            lemma_filter_items_cleared(items, c);
            lemma_filter_items(filter_items_spec(items, c), c);
            lemma_filter_items(items, c);
        },
        _ => {},
    }
    match d.hooks {
        HooksFieldSpec::Table { stop, .. } => match stop {
            StopFieldSpec::List(items) => {
                lemma_filter_items_cleared(items, c);
                lemma_filter_items(items, c);
            },
            _ => {},
        },
        _ => {},
    }
}

proof fn lemma_remove_from_stop_twice(s: StopFieldSpec, c: Seq<char>)
    ensures
        remove_from_stop(remove_from_stop(s, c).0, c) == (remove_from_stop(s, c).0, false),
{
    match s {
        StopFieldSpec::List(items) => {
            let f = filter_items_spec(items, c);
            lemma_filter_items(items, c);
            lemma_filter_items_cleared(items, c);
            lemma_filter_items(f, c);
        },
        _ => {},
    }
}

/// Removing a hook twice changes nothing the second time.
pub proof fn lemma_remove_hook_idempotent(d: DocSpec, c: Seq<char>)
    ensures
        remove_hook_spec(remove_hook_spec(d, c).0, c) == (remove_hook_spec(d, c).0, false),
{
    lemma_remove_from_stop_twice(d.stop, c);
    match d.hooks {
        HooksFieldSpec::Table { stop, .. } => {
            lemma_remove_from_stop_twice(stop, c);
        },
        _ => {},
    }
}

/// After `hooks add`, the document has a `hooks.Stop` list that runs the command.
pub proof fn lemma_add_hook_present(d: DocSpec, c: Seq<char>)
    requires
        stop_list_ok(d),
    ensures
        add_hook_spec(d, c).0.hooks matches HooksFieldSpec::Table { stop, .. } && stop matches StopFieldSpec::List(
            items,
        ) && mentions(items, c),
        stop_list_ok(add_hook_spec(d, c).0),
{
    let e = ensured_doc(d);
    match e.hooks {
        HooksFieldSpec::Table { json, stop, others } => match stop {
            StopFieldSpec::List(items) => {
                if !mentions(items, c) {
                    let l = items.push(new_hook(c));
                    assert(item_mentions(l[items.len() as int], c));
                }
            },
            _ => {},
        },
        _ => {},
    }
}

/// Adding a hook twice changes nothing the second time.
pub proof fn lemma_add_hook_idempotent(d: DocSpec, c: Seq<char>)
    requires
        stop_list_ok(d),
    ensures
        add_hook_spec(add_hook_spec(d, c).0, c) == (add_hook_spec(d, c).0, false),
{
    lemma_add_hook_present(d, c);
    let d1 = add_hook_spec(d, c).0;
    assert(ensured_doc(d1) == d1);
}

} // verus!
