//! Keyboard shortcuts: the commands of the viewer, the keys that are held
//! down together for each, and how such keys are shown to the user.

use crate::text::{
    chars_of, compare_text, join, lemma_text_lt_irreflexive, lemma_text_lt_transitive, text_lt,
    TextOrder,
};
use vstd::prelude::*;
use vstd::string::StringExecFns;

verus! {

/// The commands that a shortcut can stand for.
#[derive(Debug, PartialEq, Eq, Hash, Clone, Copy, PartialOrd, Ord, Structural)]
pub enum InputEvent {
    AlwaysOnTop,
    ShowCrosshairLines,
    Fullscreen,
    InfoMode,
    NextImage,
    FirstImage,
    LastImage,
    PreviousImage,
    ResetView,
    ZoomOut,
    ZoomIn,
    Label1,
    Label2,
    Label3,
    Label4,
    Label5,
    Label6,
    Label7,
    Label8,
    Label9,
    PanLeft,
    PanRight,
    PanUp,
    PanDown,
    DeleteAnnoation,
    Copy,
    Paste,
    Browse,
    Quit,
    ZenMode,
}

/// Whether each text of `s` comes before all that follow it.
pub open spec fn strictly_sorted(s: Seq<Seq<char>>) -> bool {
    forall|i: int, j: int| 0 <= i < j < s.len() ==> text_lt(#[trigger] s[i], #[trigger] s[j])
}

/// Whether `name` is the name of a modifier key.
pub open spec fn is_modifier_name(name: Seq<char>) -> bool {
    ||| name == "LShift"@
    ||| name == "LControl"@
    ||| name == "LAlt"@
    ||| name == "RAlt"@
    ||| name == "RControl"@
    ||| name == "RShift"@
    ||| name == "LWin"@
    ||| name == "Rwin"@
}

/// The names of `s` that are names of modifier keys, or, with `modifiers`
/// false, those that are not, in the order of `s`.
pub open spec fn names_of_kind(s: Seq<Seq<char>>, modifiers: bool) -> Seq<Seq<char>>
    decreases s.len(),
{
    if s.len() == 0 {
        Seq::<Seq<char>>::empty()
    } else if is_modifier_name(s.last()) == modifiers {
        names_of_kind(s.drop_last(), modifiers).push(s.last())
    } else {
        names_of_kind(s.drop_last(), modifiers)
    }
}

/// Every name of one kind is a name of the whole.
pub proof fn lemma_names_of_kind(s: Seq<Seq<char>>, modifiers: bool)
    ensures
        forall|i: int|
            0 <= i < names_of_kind(s, modifiers).len() ==> s.contains(
                #[trigger] names_of_kind(s, modifiers)[i],
            ),
        strictly_sorted(s) ==> strictly_sorted(names_of_kind(s, modifiers)),
    decreases s.len(),
{
    if s.len() > 0 {
        let front = s.drop_last();
        let kept = names_of_kind(front, modifiers);
        lemma_names_of_kind(front, modifiers);
        assert forall|i: int| 0 <= i < kept.len() implies s.contains(#[trigger] kept[i]) by {
            let k = choose|k: int| 0 <= k < front.len() && front[k] == kept[i];
            assert(s[k] == kept[i]);
        }
        assert(s.contains(s.last())) by {
            assert(s[s.len() - 1] == s.last());
        }
        if strictly_sorted(s) {
            assert(strictly_sorted(front)) by {
                assert forall|i: int, j: int| 0 <= i < j < front.len() implies text_lt(
                    #[trigger] front[i],
                    #[trigger] front[j],
                ) by {
                    assert(front[i] == s[i] && front[j] == s[j]);
                }
            }
            assert forall|i: int| 0 <= i < kept.len() implies text_lt(#[trigger] kept[i], s.last()) by {
                let k = choose|k: int| 0 <= k < front.len() && front[k] == kept[i];
                assert(text_lt(s[k], s[s.len() - 1]));
            }
        }
    }
}

/// Whether `key` is the name of a modifier key.
pub fn is_key_modifier(key: &str) -> (r: bool)
    ensures
        r == is_modifier_name(key@),
{
    let key = key.to_owned();
    key == "LShift".to_owned() || key == "LControl".to_owned() || key == "LAlt".to_owned() || key
        == "RAlt".to_owned() || key == "RControl".to_owned() || key == "RShift".to_owned() || key
        == "LWin".to_owned() || key == "Rwin".to_owned()
}

/// The text of each of `keys`, in order.
pub open spec fn names_of(keys: Seq<String>) -> Seq<Seq<char>> {
    keys.map_values(|k: String| k@)
}

/// The texts of keys and one more are the texts of the keys and one more.
pub proof fn lemma_names_of_push(keys: Seq<String>, key: String)
    ensures
        names_of(keys.push(key)) == names_of(keys).push(key@),
{
    assert(names_of(keys.push(key)) =~= names_of(keys).push(key@));
}

/// The names of the keys that are held down together, each once, in the
/// order of texts.
#[derive(Debug)]
pub struct SimultaneousKeypresses {
    keys: Vec<String>,
}

impl View for SimultaneousKeypresses {
    type V = Seq<Seq<char>>;

    closed spec fn view(&self) -> Seq<Seq<char>> {
        names_of(self.keys@)
    }
}

impl SimultaneousKeypresses {
    /// What holds of every such set: the names are in order, and so none
    /// is there twice.
    #[verifier::type_invariant]
    pub open spec fn wf(self) -> bool {
        strictly_sorted(self@)
    }

    /// No keys.
    pub fn new() -> (keys: Self)
        ensures
            keys@ == Seq::<Seq<char>>::empty(),
    {
        let keys = SimultaneousKeypresses { keys: Vec::new() };
        assert(keys@ =~= Seq::<Seq<char>>::empty());
        keys
    }

    /// The number of keys.
    pub fn len(&self) -> (n: usize)
        ensures
            n == self@.len(),
    {
        self.keys.len()
    }

    /// The name of key `i`.
    pub fn get(&self, i: usize) -> (name: &String)
        requires
            i < self@.len(),
        ensures
            name@ == self@[i as int],
    {
        &self.keys[i]
    }

    /// Where `wanted` stands among the names, or would stand, and whether
    /// it is there.
    fn position(&self, wanted: &Vec<char>) -> (r: (usize, bool))
        ensures
            r.0 <= self@.len(),
            forall|j: int| 0 <= j < r.0 ==> text_lt(#[trigger] self@[j], wanted@),
            r.1 ==> r.0 < self@.len() && self@[r.0 as int] == wanted@,
            !r.1 ==> r.0 == self@.len() || text_lt(wanted@, self@[r.0 as int]),
    {
        let mut i: usize = 0;
        while i < self.keys.len()
            invariant
                i <= self.keys.len(),
                forall|j: int| 0 <= j < i ==> text_lt(#[trigger] self@[j], wanted@),
            decreases self.keys.len() - i,
        {
            let held = chars_of(self.keys[i].as_str());
            assert(held@ == self@[i as int]);
            match compare_text(&held, wanted) {
                TextOrder::Before => {},
                TextOrder::Same => {
                    return (i, true);
                },
                TextOrder::After => {
                    return (i, false);
                },
            }
            i += 1;
        }
        (i, false)
    }

    /// Whether the key `name` is among the keys.
    pub fn contains(&self, name: &str) -> (r: bool)
        ensures
            r == self@.contains(name@),
    {
        proof {
            use_type_invariant(self);
        }
        let wanted = chars_of(name);
        let (i, found) = self.position(&wanted);
        proof {
            if !found && self@.contains(name@) {
                let k = choose|k: int| 0 <= k < self@.len() && self@[k] == name@;
                lemma_text_lt_irreflexive(name@);
                if k > i {
                    lemma_text_lt_transitive(name@, self@[i as int], self@[k]);
                }
            }
        }
        found
    }

    /// Adds the key `name` unless it is there.
    pub fn insert(&mut self, name: &str)
        ensures
            final(self)@.to_set() == old(self)@.to_set().insert(name@),
            strictly_sorted(final(self)@),
    {
        proof {
            use_type_invariant(&*self);
        }
        let ghost before = self@;
        let wanted = chars_of(name);
        let (i, found) = self.position(&wanted);
        if found {
            proof {
                assert(before.contains(name@));
                assert(before.to_set() =~= before.to_set().insert(name@));
            }
            return ;
        }
        // The names are copied: a set can only be replaced as a whole.
        let mut keys: Vec<String> = Vec::new();
        let mut j: usize = 0;
        while j < self.keys.len()
            invariant
                j <= self.keys.len(),
                self@ == before,
                names_of(keys@) == before.take(j as int),
            decreases self.keys.len() - j,
        {
            let key = self.keys[j].clone();
            assert(key@ == before[j as int]);
            proof {
                lemma_names_of_push(keys@, key);
                assert(before.take(j as int).push(key@) =~= before.take(j + 1));
            }
            keys.push(key);
            j += 1;
        }
        assert(before.take(before.len() as int) =~= before);
        keys.insert(i, name.to_owned());
        let ghost after = names_of(keys@);
        proof {
            assert(after =~= before.insert(i as int, name@));
            assert forall|j: int| i <= j < before.len() implies text_lt(name@, #[trigger] before[j]) by {
                if j > i {
                    lemma_text_lt_transitive(name@, before[i as int], before[j]);
                }
            }
            assert forall|a: int, b: int| 0 <= a < b < after.len() implies text_lt(
                #[trigger] after[a],
                #[trigger] after[b],
            ) by {
                if b < i {
                    assert(after[a] == before[a] && after[b] == before[b]);
                } else if b == i {
                    assert(after[a] == before[a]);
                } else if a < i {
                    assert(after[a] == before[a] && after[b] == before[b - 1]);
                } else if a == i {
                    assert(after[b] == before[b - 1]);
                } else {
                    assert(after[a] == before[a - 1] && after[b] == before[b - 1]);
                }
            }
            assert(after.to_set() =~= before.to_set().insert(name@)) by {
                assert forall|k: Seq<char>| after.contains(k) <==> (before.contains(k) || k == name@) by {
                    if after.contains(k) {
                        let a = choose|a: int| 0 <= a < after.len() && after[a] == k;
                        if a < i {
                            assert(before[a] == k);
                        } else if a > i {
                            assert(before[a - 1] == k);
                        }
                    }
                    if before.contains(k) {
                        let a = choose|a: int| 0 <= a < before.len() && before[a] == k;
                        if a < i {
                            assert(after[a] == k);
                        } else {
                            assert(after[a + 1] == k);
                        }
                    }
                    if k == name@ {
                        assert(after[i as int] == k);
                    }
                }
            }
        }
        self.keys = keys;
    }
}

impl Clone for SimultaneousKeypresses {
    fn clone(&self) -> (copy: Self)
        ensures
            copy@ == self@,
    {
        proof {
            use_type_invariant(self);
        }
        let mut keys: Vec<String> = Vec::new();
        let mut j: usize = 0;
        while j < self.keys.len()
            invariant
                j <= self.keys.len(),
                names_of(keys@) == self@.take(j as int),
            decreases self.keys.len() - j,
        {
            let key = self.keys[j].clone();
            assert(key@ == self@[j as int]);
            proof {
                lemma_names_of_push(keys@, key);
                assert(self@.take(j as int).push(key@) =~= self@.take(j + 1));
            }
            keys.push(key);
            j += 1;
        }
        assert(self@.take(self@.len() as int) =~= self@);
        SimultaneousKeypresses { keys }
    }
}


/// What the keys of a shortcut can be sorted into.
pub trait KeyTrait {
    /// The names of the keys.
    spec fn names(&self) -> Seq<Seq<char>>;

    /// The modifier keys among the keys.
    fn modifiers(&self) -> (keys: SimultaneousKeypresses)
        ensures
            keys@ == names_of_kind(self.names(), true),
    ;

    /// The keys that are no modifier keys.
    fn alphanumeric(&self) -> (keys: SimultaneousKeypresses)
        ensures
            keys@ == names_of_kind(self.names(), false),
    ;
}

impl SimultaneousKeypresses {
    /// The keys of one kind: see [`names_of_kind`].
    fn of_kind(&self, modifiers: bool) -> (keys: SimultaneousKeypresses)
        ensures
            keys@ == names_of_kind(self@, modifiers),
    {
        proof {
            use_type_invariant(self);
        }
        let mut keys: Vec<String> = Vec::new();
        let mut i: usize = 0;
        assert(self@.take(0) =~= Seq::<Seq<char>>::empty());
        while i < self.keys.len()
            invariant
                i <= self.keys.len(),
                names_of(keys@) == names_of_kind(self@.take(i as int), modifiers),
            decreases self.keys.len() - i,
        {
            let key = self.keys[i].clone();
            assert(key@ == self@[i as int]);
            proof {
                assert(self@.take(i + 1).drop_last() =~= self@.take(i as int));
                assert(self@.take(i + 1).last() == key@);
                lemma_names_of_push(keys@, key);
            }
            if is_key_modifier(key.as_str()) == modifiers {
                keys.push(key);
            }
            i += 1;
        }
        proof {
            assert(self@.take(i as int) =~= self@);
            lemma_names_of_kind(self@, modifiers);
        }
        SimultaneousKeypresses { keys }
    }
}

impl KeyTrait for SimultaneousKeypresses {
    open spec fn names(&self) -> Seq<Seq<char>> {
        self@
    }

    fn modifiers(&self) -> (keys: SimultaneousKeypresses) {
        self.of_kind(true)
    }

    fn alphanumeric(&self) -> (keys: SimultaneousKeypresses) {
        self.of_kind(false)
    }
}

/// Each name between `open` and `close`.
pub open spec fn wrapped(names: Seq<Seq<char>>, open: Seq<char>, close: Seq<char>) -> Seq<Seq<char>> {
    names.map_values(|name: Seq<char>| open + name + close)
}

/// The names of the keys as they are shown: the modifier keys first and the
/// other keys behind them, each kind in the order of texts.
pub open spec fn shown_names(keys: Seq<Seq<char>>) -> Seq<Seq<char>> {
    names_of_kind(keys, true) + names_of_kind(keys, false)
}

/// Writes the names of `keys` behind `out`, each between `open` and `close`
/// and with `sep` before it; the very first name of a text has no `sep`
/// before it. `shown` are the names that `out` holds so far, and `first`
/// says that there are none.
fn push_names(
    out: &mut String,
    keys: &SimultaneousKeypresses,
    open: &str,
    close: &str,
    sep: &str,
    first: bool,
    Ghost(shown): Ghost<Seq<Seq<char>>>,
)
    requires
        old(out)@ == join(wrapped(shown, open@, close@), sep@),
        first == (shown.len() == 0),
    ensures
        final(out)@ == join(wrapped(shown + keys@, open@, close@), sep@),
{
    let mut i: usize = 0;
    assert(shown + keys@.take(0) =~= shown);
    while i < keys.len()
        invariant
            i <= keys@.len(),
            first == (shown.len() == 0),
            out@ == join(wrapped(shown + keys@.take(i as int), open@, close@), sep@),
        decreases keys@.len() - i,
    {
        let ghost so_far = wrapped(shown + keys@.take(i as int), open@, close@);
        let ghost next = wrapped(shown + keys@.take(i + 1), open@, close@);
        proof {
            assert(shown + keys@.take(i + 1) =~= (shown + keys@.take(i as int)).push(keys@[i as int]));
            assert(next =~= so_far.push(open@ + keys@[i as int] + close@));
            assert(next.drop_last() =~= so_far);
        }
        if !first || i > 0 {
            out.append(sep);
        }
        out.append(open);
        out.append(keys.get(i).as_str());
        out.append(close);
        assert(out@ =~= join(next, sep@));
        i += 1;
    }
    assert(keys@.take(i as int) =~= keys@);
}

/// The keys as text: their names with ` + ` between them, the modifier keys
/// first.
pub fn keypresses_as_string(keys: &SimultaneousKeypresses) -> (text: String)
    ensures
        text@ == join(shown_names(keys@), " + "@),
{
    let modifiers = keys.modifiers();
    let alpha = keys.alphanumeric();
    let mut text = String::new();
    proof {
        reveal_strlit("");
        assert(wrapped(Seq::<Seq<char>>::empty(), ""@, ""@) =~= Seq::<Seq<char>>::empty());
    }
    push_names(&mut text, &modifiers, "", "", " + ", true, Ghost(Seq::<Seq<char>>::empty()));
    assert(Seq::<Seq<char>>::empty() + modifiers@ =~= modifiers@);
    push_names(&mut text, &alpha, "", "", " + ", modifiers.len() == 0, Ghost(modifiers@));
    proof {
        let shown = shown_names(keys@);
        assert forall|i: int| 0 <= i < shown.len() implies #[trigger] wrapped(shown, ""@, ""@)[i]
            == shown[i] by {
            assert(""@ + shown[i] + ""@ =~= shown[i]);
        }
        assert(wrapped(shown, ""@, ""@) =~= shown);
    }
    text
}

/// The keys as text for a page: as [`keypresses_as_string`] writes them, but
/// each name marked as a key.
pub fn keypresses_as_markdown(keys: &SimultaneousKeypresses) -> (text: String)
    ensures
        text@ == join(wrapped(shown_names(keys@), "<kbd>"@, "</kbd>"@), " + "@),
{
    let modifiers = keys.modifiers();
    let alpha = keys.alphanumeric();
    let mut text = String::new();
    proof {
        assert(wrapped(Seq::<Seq<char>>::empty(), "<kbd>"@, "</kbd>"@) =~= Seq::<Seq<char>>::empty());
    }
    push_names(
        &mut text,
        &modifiers,
        "<kbd>",
        "</kbd>",
        " + ",
        true,
        Ghost(Seq::<Seq<char>>::empty()),
    );
    assert(Seq::<Seq<char>>::empty() + modifiers@ =~= modifiers@);
    push_names(&mut text, &alpha, "<kbd>", "</kbd>", " + ", modifiers.len() == 0, Ghost(modifiers@));
    text
}


/// The number of commands.
pub const COMMANDS: usize = 30;

/// The place of a command among the commands, in the order in which they
/// are declared.
pub open spec fn event_rank(event: InputEvent) -> int {
    match event {
        InputEvent::AlwaysOnTop => 0,
        InputEvent::ShowCrosshairLines => 1,
        InputEvent::Fullscreen => 2,
        InputEvent::InfoMode => 3,
        InputEvent::NextImage => 4,
        InputEvent::FirstImage => 5,
        InputEvent::LastImage => 6,
        InputEvent::PreviousImage => 7,
        InputEvent::ResetView => 8,
        InputEvent::ZoomOut => 9,
        InputEvent::ZoomIn => 10,
        InputEvent::Label1 => 11,
        InputEvent::Label2 => 12,
        InputEvent::Label3 => 13,
        InputEvent::Label4 => 14,
        InputEvent::Label5 => 15,
        InputEvent::Label6 => 16,
        InputEvent::Label7 => 17,
        InputEvent::Label8 => 18,
        InputEvent::Label9 => 19,
        InputEvent::PanLeft => 20,
        InputEvent::PanRight => 21,
        InputEvent::PanUp => 22,
        InputEvent::PanDown => 23,
        InputEvent::DeleteAnnoation => 24,
        InputEvent::Copy => 25,
        InputEvent::Paste => 26,
        InputEvent::Browse => 27,
        InputEvent::Quit => 28,
        InputEvent::ZenMode => 29,
    }
}

/// `event_rank` of a command.
pub fn rank_of(event: InputEvent) -> (rank: usize)
    ensures
        rank == event_rank(event),
        rank < COMMANDS,
{
    match event {
        InputEvent::AlwaysOnTop => 0,
        InputEvent::ShowCrosshairLines => 1,
        InputEvent::Fullscreen => 2,
        InputEvent::InfoMode => 3,
        InputEvent::NextImage => 4,
        InputEvent::FirstImage => 5,
        InputEvent::LastImage => 6,
        InputEvent::PreviousImage => 7,
        InputEvent::ResetView => 8,
        InputEvent::ZoomOut => 9,
        InputEvent::ZoomIn => 10,
        InputEvent::Label1 => 11,
        InputEvent::Label2 => 12,
        InputEvent::Label3 => 13,
        InputEvent::Label4 => 14,
        InputEvent::Label5 => 15,
        InputEvent::Label6 => 16,
        InputEvent::Label7 => 17,
        InputEvent::Label8 => 18,
        InputEvent::Label9 => 19,
        InputEvent::PanLeft => 20,
        InputEvent::PanRight => 21,
        InputEvent::PanUp => 22,
        InputEvent::PanDown => 23,
        InputEvent::DeleteAnnoation => 24,
        InputEvent::Copy => 25,
        InputEvent::Paste => 26,
        InputEvent::Browse => 27,
        InputEvent::Quit => 28,
        InputEvent::ZenMode => 29,
    }
}

/// For each command the keys that call it, if it has any.
#[derive(Debug)]
pub struct Shortcuts {
    entries: Vec<Option<SimultaneousKeypresses>>,
}

impl View for Shortcuts {
    type V = Map<InputEvent, Seq<Seq<char>>>;

    closed spec fn view(&self) -> Map<InputEvent, Seq<Seq<char>>> {
        shortcuts_of(self.entries@)
    }
}

/// The shortcuts that a table holds: those of each command at the place of
/// its rank.
pub open spec fn shortcuts_of(entries: Seq<Option<SimultaneousKeypresses>>) -> Map<
    InputEvent,
    Seq<Seq<char>>,
> {
    Map::new(
        |event: InputEvent| entries[event_rank(event)] is Some,
        |event: InputEvent| entries[event_rank(event)].unwrap()@,
    )
}

impl Shortcuts {
    #[verifier::type_invariant]
    closed spec fn wf(self) -> bool {
        self.entries@.len() == COMMANDS
    }

    /// No shortcuts.
    pub fn new() -> (shortcuts: Self)
        ensures
            shortcuts@ == Map::<InputEvent, Seq<Seq<char>>>::empty(),
    {
        let mut entries: Vec<Option<SimultaneousKeypresses>> = Vec::new();
        let mut i: usize = 0;
        while i < COMMANDS
            invariant
                i <= COMMANDS,
                entries@.len() == i,
                forall|j: int| 0 <= j < i ==> (#[trigger] entries@[j]) is None,
            decreases COMMANDS - i,
        {
            entries.push(None);
            i += 1;
        }
        assert(shortcuts_of(entries@) =~= Map::<InputEvent, Seq<Seq<char>>>::empty());
        Shortcuts { entries }
    }

    /// The keys that call `command`, if it has any.
    pub fn get(&self, command: &InputEvent) -> (keys: Option<&SimultaneousKeypresses>)
        ensures
            match keys {
                Some(keys) => self@.contains_key(*command) && self@[*command] == keys@,
                None => !self@.contains_key(*command),
            },
    {
        proof {
            use_type_invariant(self);
        }
        self.entries[rank_of(*command)].as_ref()
    }

    /// Makes `keys` the keys that call `command`, in place of those that
    /// called it before.
    pub fn insert(&mut self, command: InputEvent, keys: SimultaneousKeypresses)
        ensures
            final(self)@ == old(self)@.insert(command, keys@),
    {
        proof {
            use_type_invariant(&*self);
        }
        let rank = rank_of(command);
        let ghost before = self.entries@;
        // The table is copied: shortcuts can only be replaced as a whole.
        let mut entries: Vec<Option<SimultaneousKeypresses>> = Vec::new();
        let mut i: usize = 0;
        while i < COMMANDS
            invariant
                i <= COMMANDS,
                rank < COMMANDS,
                self.entries@ == before,
                before.len() == COMMANDS,
                entries@.len() == i,
                forall|j: int|
                    0 <= j < i && j != rank ==> ((#[trigger] entries@[j]) is Some) == (before[j] is Some)
                        && (before[j] is Some ==> entries@[j].unwrap()@ == before[j].unwrap()@),
            decreases COMMANDS - i,
        {
            let entry = if i == rank {
                None
            } else {
                match &self.entries[i] {
                    Some(held) => Some(held.clone()),
                    None => None,
                }
            };
            entries.push(entry);
            i += 1;
        }
        entries.set(rank, Some(keys));
        proof {
            assert forall|a: InputEvent, b: InputEvent| event_rank(a) == event_rank(b) implies a
                == b by {}
            assert(shortcuts_of(entries@) =~= shortcuts_of(before).insert(command, keys@));
        }
        *self = Shortcuts { entries };
    }
}

impl Clone for Shortcuts {
    fn clone(&self) -> (copy: Self)
        ensures
            copy@ == self@,
    {
        proof {
            use_type_invariant(self);
        }
        let mut entries: Vec<Option<SimultaneousKeypresses>> = Vec::new();
        let mut i: usize = 0;
        while i < COMMANDS
            invariant
                i <= COMMANDS,
                self.entries@.len() == COMMANDS,
                entries@.len() == i,
                forall|j: int|
                    0 <= j < i ==> ((#[trigger] entries@[j]) is Some) == (self.entries@[j] is Some) && (
                    self.entries@[j] is Some ==> entries@[j].unwrap()@ == self.entries@[j].unwrap()@),
            decreases COMMANDS - i,
        {
            let entry = match &self.entries[i] {
                Some(held) => Some(held.clone()),
                None => None,
            };
            entries.push(entry);
            i += 1;
        }
        assert(shortcuts_of(entries@) =~= shortcuts_of(self.entries@));
        Shortcuts { entries }
    }
}


/// The text of each of `keys`, in order.
pub open spec fn str_names(keys: Seq<&str>) -> Seq<Seq<char>> {
    keys.map_values(|k: &str| k@)
}

/// Texts in order are known by the set that they make up.
pub proof fn lemma_sorted_by_set(a: Seq<Seq<char>>, b: Seq<Seq<char>>)
    requires
        strictly_sorted(a),
        strictly_sorted(b),
        a.to_set() == b.to_set(),
    ensures
        a == b,
    decreases a.len(),
{
    if a.len() == 0 {
        if b.len() > 0 {
            assert(b.to_set().contains(b[0]));
            assert(a.contains(b[0]));
        }
        assert(a =~= b);
    } else {
        let top = a.last();
        assert(a.to_set().contains(a[a.len() - 1]));
        assert(b.contains(top));
        let k = choose|k: int| 0 <= k < b.len() && b[k] == top;
        assert(b.to_set().contains(b[b.len() - 1]));
        assert(a.contains(b.last()));
        let m = choose|m: int| 0 <= m < a.len() && a[m] == b.last();
        lemma_text_lt_irreflexive(top);
        if k < b.len() - 1 {
            // top comes before the last of b, which is in a and so does not
            // come behind top
            assert(text_lt(b[k], b[b.len() - 1]));
            if m < a.len() - 1 {
                assert(text_lt(a[m], a[a.len() - 1]));
                lemma_text_lt_transitive(top, b.last(), top);
            }
        }
        assert(b.last() == top);
        let a0 = a.drop_last();
        let b0 = b.drop_last();
        assert forall|x: Seq<char>| a0.to_set().contains(x) == b0.to_set().contains(x) by {
            if a0.contains(x) {
                let i = choose|i: int| 0 <= i < a0.len() && a0[i] == x;
                assert(a[i] == x);
                assert(text_lt(a[i], a[a.len() - 1]));
                assert(a.to_set().contains(x));
                assert(b.contains(x));
                let j = choose|j: int| 0 <= j < b.len() && b[j] == x;
                assert(b0[j] == x);
            }
            if b0.contains(x) {
                let j = choose|j: int| 0 <= j < b0.len() && b0[j] == x;
                assert(b[j] == x);
                assert(text_lt(b[j], b[b.len() - 1]));
                assert(b.to_set().contains(x));
                assert(a.contains(x));
                let i = choose|i: int| 0 <= i < a.len() && a[i] == x;
                assert(a0[i] == x);
            }
        }
        assert(a0.to_set() =~= b0.to_set());
        assert(strictly_sorted(a0)) by {
            assert forall|i: int, j: int| 0 <= i < j < a0.len() implies text_lt(
                #[trigger] a0[i],
                #[trigger] a0[j],
            ) by {
                assert(a0[i] == a[i] && a0[j] == a[j]);
            }
        }
        assert(strictly_sorted(b0)) by {
            assert forall|i: int, j: int| 0 <= i < j < b0.len() implies text_lt(
                #[trigger] b0[i],
                #[trigger] b0[j],
            ) by {
                assert(b0[i] == b[i] && b0[j] == b[j]);
            }
        }
        lemma_sorted_by_set(a0, b0);
        assert(a =~= a0.push(top));
        assert(b =~= b0.push(top));
    }
}

/// The keys that call `event` unless the user has chosen others.
pub open spec fn default_names(event: InputEvent) -> Seq<Seq<char>> {
    match event {
        InputEvent::AlwaysOnTop => seq!["T"@],
        InputEvent::ShowCrosshairLines => seq!["X"@],
        InputEvent::Fullscreen => seq!["F"@],
        InputEvent::ResetView => seq!["V"@],
        InputEvent::Quit => seq!["Q"@],
        InputEvent::InfoMode => seq!["I"@],
        InputEvent::PreviousImage => seq!["Left"@],
        InputEvent::FirstImage => seq!["Home"@],
        InputEvent::LastImage => seq!["End"@],
        InputEvent::NextImage => seq!["Right"@],
        InputEvent::ZoomIn => seq!["Plus"@],
        InputEvent::ZoomOut => seq!["Minus"@],
        InputEvent::Label1 => seq!["Key1"@],
        InputEvent::Label2 => seq!["Key2"@],
        InputEvent::Label3 => seq!["Key3"@],
        InputEvent::Label4 => seq!["Key4"@],
        InputEvent::Label5 => seq!["Key5"@],
        InputEvent::Label6 => seq!["Key6"@],
        InputEvent::Label7 => seq!["Key7"@],
        InputEvent::Label8 => seq!["Key8"@],
        InputEvent::Label9 => seq!["Key9"@],
        InputEvent::ZenMode => seq!["Z"@],
        InputEvent::DeleteAnnoation => seq!["Delete"@],
        InputEvent::Browse => seq!["LControl"@, "O"@],
        InputEvent::PanRight => seq!["LShift"@, "Right"@],
        InputEvent::PanLeft => seq!["LShift"@, "Left"@],
        InputEvent::PanDown => seq!["Down"@, "LShift"@],
        InputEvent::PanUp => seq!["LShift"@, "Up"@],
        InputEvent::Paste => seq!["LControl"@, "V"@],
        InputEvent::Copy => seq!["C"@, "LControl"@],
    }
}

/// The shortcuts of a viewer that has not been configured: every command
/// has its default keys.
pub open spec fn default_shortcuts() -> Map<InputEvent, Seq<Seq<char>>> {
    Map::new(|event: InputEvent| true, |event: InputEvent| default_names(event))
}

/// What shortcuts are built with.
pub trait ShortcutExt: Sized {
    /// The shortcuts that are held.
    spec fn shortcuts(&self) -> Map<InputEvent, Seq<Seq<char>>>;

    /// The default shortcuts: see [`default_shortcuts`].
    fn default_keys() -> (made: Self)
        ensures
            made.shortcuts() == default_shortcuts(),
    ;

    /// Makes the one key `key` call `function`.
    fn add_key(self, function: InputEvent, key: &str) -> (made: Self)
        ensures
            made.shortcuts() == self.shortcuts().insert(function, seq![key@]),
    ;

    /// Makes the keys `keys`, held down together, call `function`. The keys
    /// are kept in the order of texts, each once.
    fn add_keys(self, function: InputEvent, keys: &[&str]) -> (made: Self)
        ensures
            made.shortcuts().contains_key(function),
            strictly_sorted(made.shortcuts()[function]),
            made.shortcuts()[function].to_set() == str_names(keys@).to_set(),
            made.shortcuts() == self.shortcuts().insert(function, made.shortcuts()[function]),
    ;
}


impl ShortcutExt for Shortcuts {
    open spec fn shortcuts(&self) -> Map<InputEvent, Seq<Seq<char>>> {
        self@
    }

    fn default_keys() -> (made: Self) {
        proof {
            reveal_strlit("LControl");
            reveal_strlit("LShift");
            reveal_strlit("O");
            reveal_strlit("Right");
            reveal_strlit("Left");
            reveal_strlit("Down");
            reveal_strlit("Up");
            reveal_strlit("V");
            reveal_strlit("C");
        }
        let made = Shortcuts::new()
            .add_key(InputEvent::AlwaysOnTop, "T")
            .add_key(InputEvent::ShowCrosshairLines, "X")
            .add_key(InputEvent::Fullscreen, "F")
            .add_key(InputEvent::ResetView, "V")
            .add_key(InputEvent::Quit, "Q")
            .add_key(InputEvent::InfoMode, "I")
            .add_key(InputEvent::PreviousImage, "Left")
            .add_key(InputEvent::FirstImage, "Home")
            .add_key(InputEvent::LastImage, "End")
            .add_key(InputEvent::NextImage, "Right")
            .add_key(InputEvent::ZoomIn, "Plus")
            .add_key(InputEvent::ZoomOut, "Minus")
            .add_key(InputEvent::Label1, "Key1")
            .add_key(InputEvent::Label2, "Key2")
            .add_key(InputEvent::Label3, "Key3")
            .add_key(InputEvent::Label4, "Key4")
            .add_key(InputEvent::Label5, "Key5")
            .add_key(InputEvent::Label6, "Key6")
            .add_key(InputEvent::Label7, "Key7")
            .add_key(InputEvent::Label8, "Key8")
            .add_key(InputEvent::Label9, "Key9")
            .add_key(InputEvent::ZenMode, "Z")
            .add_key(InputEvent::DeleteAnnoation, "Delete");
        let keys = ["LControl", "O"];
        let made = made.add_keys(InputEvent::Browse, &keys);
        proof {
            lemma_pair(made@[InputEvent::Browse], keys@, "LControl", "O");
        }
        let keys = ["LShift", "Right"];
        let made = made.add_keys(InputEvent::PanRight, &keys);
        proof {
            lemma_pair(made@[InputEvent::PanRight], keys@, "LShift", "Right");
        }
        let keys = ["LShift", "Left"];
        let made = made.add_keys(InputEvent::PanLeft, &keys);
        proof {
            assert(text_lt("LShift"@, "Left"@)) by {
                assert("LShift"@.drop_first()[0] == 'S');
                assert("Left"@.drop_first()[0] == 'e');
                assert(text_lt("LShift"@.drop_first(), "Left"@.drop_first()));
            }
            lemma_pair(made@[InputEvent::PanLeft], keys@, "LShift", "Left");
        }
        let keys = ["LShift", "Down"];
        let made = made.add_keys(InputEvent::PanDown, &keys);
        proof {
            lemma_pair(made@[InputEvent::PanDown], keys@, "Down", "LShift");
        }
        let keys = ["LShift", "Up"];
        let made = made.add_keys(InputEvent::PanUp, &keys);
        proof {
            lemma_pair(made@[InputEvent::PanUp], keys@, "LShift", "Up");
        }
        let keys = ["LControl", "V"];
        let made = made.add_keys(InputEvent::Paste, &keys);
        proof {
            lemma_pair(made@[InputEvent::Paste], keys@, "LControl", "V");
        }
        let keys = ["LControl", "C"];
        let made = made.add_keys(InputEvent::Copy, &keys);
        proof {
            lemma_pair(made@[InputEvent::Copy], keys@, "C", "LControl");
        }
        assert(made@ =~= default_shortcuts());
        made
    }

    fn add_key(self, function: InputEvent, key: &str) -> (made: Self) {
        let mut keys = SimultaneousKeypresses::new();
        keys.insert(key);
        proof {
            assert(seq![key@].to_set() =~= Seq::<Seq<char>>::empty().to_set().insert(key@)) by {
                assert(seq![key@][0] == key@);
            }
            assert(strictly_sorted(seq![key@]));
            lemma_sorted_by_set(keys@, seq![key@]);
        }
        let mut made = self;
        made.insert(function, keys);
        made
    }

    fn add_keys(self, function: InputEvent, keys: &[&str]) -> (made: Self) {
        let mut held = SimultaneousKeypresses::new();
        let mut i: usize = 0;
        assert(str_names(keys@).take(0) =~= Seq::<Seq<char>>::empty());
        while i < keys.len()
            invariant
                i <= keys@.len(),
                strictly_sorted(held@),
                held@.to_set() == str_names(keys@).take(i as int).to_set(),
            decreases keys@.len() - i,
        {
            let ghost before = held@.to_set();
            held.insert(keys[i]);
            proof {
                let names = str_names(keys@);
                assert(names.take(i + 1) =~= names.take(i as int).push(names[i as int]));
                lemma_to_set_push(names.take(i as int), names[i as int]);
            }
            i += 1;
        }
        assert(str_names(keys@).take(i as int) =~= str_names(keys@));
        let mut made = self;
        made.insert(function, held);
        made
    }
}

/// The texts of a sequence and one more are, as a set, the set of the
/// sequence and one more.
proof fn lemma_to_set_push(s: Seq<Seq<char>>, x: Seq<char>)
    ensures
        s.push(x).to_set() == s.to_set().insert(x),
{
    let t = s.push(x);
    assert forall|y: Seq<char>| t.to_set().contains(y) == s.to_set().insert(x).contains(y) by {
        if t.contains(y) {
            let i = choose|i: int| 0 <= i < t.len() && t[i] == y;
            if i < s.len() {
                assert(s[i] == y);
            }
        }
        if s.contains(y) {
            let i = choose|i: int| 0 <= i < s.len() && s[i] == y;
            assert(t[i] == y);
        }
        if y == x {
            assert(t[s.len() as int] == y);
        }
    }
    assert(t.to_set() =~= s.to_set().insert(x));
}

/// Keys in order that are, as a set, two given keys, of which `x` is the
/// one that comes first and `y` the other, are `x` and `y`.
proof fn lemma_pair(held: Seq<Seq<char>>, keys: Seq<&str>, x: &str, y: &str)
    requires
        strictly_sorted(held),
        held.to_set() == str_names(keys).to_set(),
        keys.len() == 2,
        text_lt(x@, y@),
        (x@ == keys[0]@ && y@ == keys[1]@) || (x@ == keys[1]@ && y@ == keys[0]@),
    ensures
        held == seq![x@, y@],
{
    let wanted = seq![x@, y@];
    let given = str_names(keys);
    assert(wanted.to_set() =~= given.to_set()) by {
        assert(wanted[0] == x@ && wanted[1] == y@);
        assert(given[0] == keys[0]@ && given[1] == keys[1]@);
        assert forall|k: Seq<char>| wanted.contains(k) == given.contains(k) by {
            if wanted.contains(k) {
                let i = choose|i: int| 0 <= i < wanted.len() && wanted[i] == k;
            }
            if given.contains(k) {
                let i = choose|i: int| 0 <= i < given.len() && given[i] == k;
            }
        }
    }
    lemma_sorted_by_set(held, wanted);
}

/// The keys that call `command`, as text, or `None` if it has none.
pub fn lookup(shortcuts: &Shortcuts, command: &InputEvent) -> (text: String)
    ensures
        text@ == if shortcuts@.contains_key(*command) {
            join(shown_names(shortcuts@[*command]), " + "@)
        } else {
            "None"@
        },
{
    if let Some(keys) = shortcuts.get(command) {
        return keypresses_as_string(keys);
    }
    "None".to_owned()
}


/// The keyboard as the window reports it: the names of the keys that are
/// down, of those that went down since the last report and of those that
/// went up, and which kinds of modifier keys are held.
#[derive(Debug, Clone)]
pub struct KeyboardState {
    pub down: Vec<String>,
    pub pressed: Vec<String>,
    pub released: Vec<String>,
    pub alt: bool,
    pub shift: bool,
    pub ctrl: bool,
    pub logo: bool,
}

/// The content of a [`KeyboardState`].
pub struct KeyboardView {
    pub down: Seq<Seq<char>>,
    pub pressed: Seq<Seq<char>>,
    pub released: Seq<Seq<char>>,
    pub alt: bool,
    pub shift: bool,
    pub ctrl: bool,
    pub logo: bool,
}

impl View for KeyboardState {
    type V = KeyboardView;

    open spec fn view(&self) -> KeyboardView {
        KeyboardView {
            down: names_of(self.down@),
            pressed: names_of(self.pressed@),
            released: names_of(self.released@),
            alt: self.alt,
            shift: self.shift,
            ctrl: self.ctrl,
            logo: self.logo,
        }
    }
}

/// Whether `part` stands somewhere in `whole`.
pub open spec fn contains_text(whole: Seq<char>, part: Seq<char>) -> bool {
    exists|k: int| 0 <= k <= whole.len() - part.len() && #[trigger] whole.subrange(k, k + part.len()) == part
}

/// Whether the kind of modifier that the key `name` belongs to is held. A
/// name tells its kind by holding `Shift`, `Alt`, `Control` or `Win`.
pub open spec fn modifier_is_held(keyboard: KeyboardView, name: Seq<char>) -> bool {
    &&& contains_text(name, "Shift"@) ==> keyboard.shift
    &&& contains_text(name, "Alt"@) ==> keyboard.alt
    &&& contains_text(name, "Control"@) ==> keyboard.ctrl
    &&& contains_text(name, "Win"@) ==> keyboard.logo
}

/// Whether `command` is called again and again for as long as its key is
/// down.
pub open spec fn is_repeating(command: InputEvent) -> bool {
    ||| command == InputEvent::NextImage
    ||| command == InputEvent::PreviousImage
    ||| command == InputEvent::PanRight
    ||| command == InputEvent::PanLeft
    ||| command == InputEvent::PanDown
    ||| command == InputEvent::PanUp
    ||| command == InputEvent::ZoomIn
    ||| command == InputEvent::ZoomOut
}

/// Whether the key `name` calls `command` now: full screen is called when
/// its key goes up, a repeating command while its key is down, and every
/// other command when its key goes down.
pub open spec fn key_fires(keyboard: KeyboardView, command: InputEvent, name: Seq<char>) -> bool {
    if command == InputEvent::Fullscreen {
        keyboard.released.contains(name)
    } else {
        (is_repeating(command) && keyboard.down.contains(name)) || keyboard.pressed.contains(name)
    }
}

/// Whether the keyboard is in use for shortcuts at all: it is not taken by
/// a text field, some key is down or has gone up, and it is not just one
/// modifier key that is down.
pub open spec fn keyboard_is_live(keyboard: KeyboardView, key_grab: bool) -> bool {
    &&& !key_grab
    &&& keyboard.down.len() > 0 || keyboard.released.len() > 0
    &&& !((keyboard.alt || keyboard.shift || keyboard.ctrl) && keyboard.down.len() == 1)
}

/// Whether the keys `keys` call `command` now: as many keys are down as the
/// shortcut has (full screen does not ask for this), the modifiers of the
/// shortcut are held, and one of its other keys fires.
pub open spec fn keys_fire(keyboard: KeyboardView, command: InputEvent, keys: Seq<Seq<char>>) -> bool {
    &&& keyboard.down.len() == keys.len() || command == InputEvent::Fullscreen
    &&& forall|i: int|
        0 <= i < names_of_kind(keys, true).len() ==> modifier_is_held(
            keyboard,
            #[trigger] names_of_kind(keys, true)[i],
        )
    &&& exists|i: int|
        0 <= i < names_of_kind(keys, false).len() && key_fires(
            keyboard,
            command,
            #[trigger] names_of_kind(keys, false)[i],
        )
}

/// Whether the shortcut of `command` is called now.
pub open spec fn shortcut_fires(
    keyboard: KeyboardView,
    key_grab: bool,
    shortcuts: Map<InputEvent, Seq<Seq<char>>>,
    command: InputEvent,
) -> bool {
    &&& keyboard_is_live(keyboard, key_grab)
    &&& shortcuts.contains_key(command)
    &&& keys_fire(keyboard, command, shortcuts[command])
}

/// The shortcuts after the keyboard was asked for `command`: a command
/// without a shortcut is given its default keys as soon as a live keyboard
/// is asked for it.
pub open spec fn shortcuts_after_asking(
    keyboard: KeyboardView,
    key_grab: bool,
    shortcuts: Map<InputEvent, Seq<Seq<char>>>,
    command: InputEvent,
) -> Map<InputEvent, Seq<Seq<char>>> {
    if keyboard_is_live(keyboard, key_grab) && !shortcuts.contains_key(command) {
        shortcuts.insert(command, default_names(command))
    } else {
        shortcuts
    }
}

/// Whether `part` stands somewhere in `whole`.
pub fn text_contains(whole: &str, part: &str) -> (r: bool)
    ensures
        r == contains_text(whole@, part@),
{
    let hay = chars_of(whole);
    let needle = chars_of(part);
    if needle.len() > hay.len() {
        return false;
    }
    let mut k: usize = 0;
    while k <= hay.len() - needle.len()
        invariant
            hay@ == whole@,
            needle@ == part@,
            needle.len() <= hay.len(),
            k <= hay.len() - needle.len() + 1,
            forall|j: int| 0 <= j < k ==> #[trigger] hay@.subrange(j, j + needle@.len()) != needle@,
        decreases hay.len() - needle.len() + 1 - k,
    {
        let mut i: usize = 0;
        while i < needle.len() && hay[k + i] == needle[i]
            invariant
                needle.len() <= hay.len(),
                k <= hay.len() - needle.len(),
                i <= needle.len(),
                forall|j: int| 0 <= j < i ==> hay[k + j] == needle[j],
            decreases needle.len() - i,
        {
            i += 1;
        }
        if i == needle.len() {
            assert(hay@.subrange(k as int, k + needle@.len()) =~= needle@);
            return true;
        }
        assert(hay@.subrange(k as int, k + needle@.len())[i as int] == hay[k + i]);
        k += 1;
    }
    false
}

/// Whether `name` is among `names`.
fn is_among(names: &Vec<String>, name: &String) -> (r: bool)
    ensures
        r == names_of(names@).contains(name@),
{
    let mut i: usize = 0;
    while i < names.len()
        invariant
            i <= names.len(),
            forall|j: int| 0 <= j < i ==> names_of(names@)[j] != name@,
        decreases names.len() - i,
    {
        if names[i] == *name {
            assert(names_of(names@)[i as int] == name@);
            return true;
        }
        i += 1;
    }
    false
}

/// Whether `command` is called again and again while its key is down.
pub fn repeats(command: InputEvent) -> (r: bool)
    ensures
        r == is_repeating(command),
{
    command == InputEvent::NextImage || command == InputEvent::PreviousImage || command
        == InputEvent::PanRight || command == InputEvent::PanLeft || command == InputEvent::PanDown
        || command == InputEvent::PanUp || command == InputEvent::ZoomIn || command
        == InputEvent::ZoomOut
}

/// Whether the keys of a shortcut call `command` now: see [`keys_fire`].
pub fn keys_pressed(keyboard: &KeyboardState, command: InputEvent, keys: &SimultaneousKeypresses) -> (r:
    bool)
    ensures
        r == keys_fire(keyboard@, command, keys@),
{
    // make sure the appropriate number of keys are down
    if keyboard.down.len() != keys.len() && command != InputEvent::Fullscreen {
        return false;
    }
    // make sure all modifiers are down
    let modifiers = keys.modifiers();
    let mut i: usize = 0;
    assert(keyboard@.down.len() == keyboard.down@.len());
    while i < modifiers.len()
        invariant
            i <= modifiers@.len(),
            modifiers@ == names_of_kind(keys@, true),
            forall|j: int| 0 <= j < i ==> modifier_is_held(keyboard@, #[trigger] modifiers@[j]),
        decreases modifiers@.len() - i,
    {
        let name = modifiers.get(i).as_str();
        if (text_contains(name, "Shift") && !keyboard.shift) || (text_contains(name, "Alt")
            && !keyboard.alt) || (text_contains(name, "Control") && !keyboard.ctrl) || (text_contains(
            name,
            "Win",
        ) && !keyboard.logo) {
            assert(!modifier_is_held(keyboard@, modifiers@[i as int]));
            return false;
        }
        i += 1;
    }
    let alpha = keys.alphanumeric();
    let repeating = repeats(command);
    let mut i: usize = 0;
    while i < alpha.len()
        invariant
            i <= alpha@.len(),
            alpha@ == names_of_kind(keys@, false),
            repeating == is_repeating(command),
            keyboard@.down.len() == keys@.len() || command == InputEvent::Fullscreen,
            forall|j: int|
                0 <= j < names_of_kind(keys@, true).len() ==> modifier_is_held(
                    keyboard@,
                    #[trigger] names_of_kind(keys@, true)[j],
                ),
            forall|j: int| 0 <= j < i ==> !key_fires(keyboard@, command, #[trigger] alpha@[j]),
        decreases alpha@.len() - i,
    {
        let name = alpha.get(i);
        let fires = if command == InputEvent::Fullscreen {
            is_among(&keyboard.released, name)
        } else {
            (repeating && is_among(&keyboard.down, name)) || is_among(&keyboard.pressed, name)
        };
        if fires {
            assert(key_fires(keyboard@, command, alpha@[i as int]));
            return true;
        }
        i += 1;
    }
    false
}

/// Whether the shortcut of `command` is called now: see
/// [`shortcut_fires`]. A command that has no shortcut is given its default
/// keys: see [`shortcuts_after_asking`].
pub fn key_pressed(
    keyboard: &KeyboardState,
    key_grab: bool,
    shortcuts: &mut Shortcuts,
    command: InputEvent,
) -> (r: bool)
    ensures
        r == shortcut_fires(keyboard@, key_grab, old(shortcuts)@, command),
        final(shortcuts)@ == shortcuts_after_asking(keyboard@, key_grab, old(shortcuts)@, command),
{
    // don't do anything if keyboard is grabbed (typing in textbox etc)
    if key_grab {
        return false;
    }
    // if nothing is down, just return
    if keyboard.down.len() == 0 && keyboard.released.len() == 0 {
        return false;
    }
    // early out if just one key is pressed, and it's a modifier
    if (keyboard.alt || keyboard.shift || keyboard.ctrl) && keyboard.down.len() == 1 {
        return false;
    }
    if let Some(keys) = shortcuts.get(&command) {
        return keys_pressed(keyboard, command, keys);
    }
    // update missing shortcut
    let defaults = Shortcuts::default_keys();
    if let Some(default_shortcut) = defaults.get(&command) {
        shortcuts.insert(command, default_shortcut.clone());
    }
    false
}

} // verus!
