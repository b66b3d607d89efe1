//! The indexer: folds the lexer's event stream into the signal hierarchy
//! and per-bit toggle state.
//!
//! Each event is one step of a deterministic state machine, specified
//! exactly by [`index_step`] and implemented by [`Indexer::feed`]. The model
//! keeps one [`Signal`] record per *bit*: a declared variable of width `W`
//! expands into `W` records sharing the identifier code and numbered by
//! `sub_id`.

use vstd::prelude::*;

use crate::lexer::Change;
use crate::lexer::EventModel;
use crate::lexer::LineEvent;
use crate::lexer::LineEventModel;
use crate::lexer::LineInfo;
use crate::lexer::Part;
use crate::text::dec_digits;
use crate::text::eq_bytes;
use crate::text::push_dec;
use crate::text::subvec;
use crate::values::SignalValue;
use crate::values::State;
use crate::values::spec_value_of_byte;

verus! {

broadcast use vstd::array::group_array_axioms;

/// What an analysis run needs: input path, output path, separator byte.
pub struct Configuration {
    pub in_file: String,
    pub out_file: String,
    pub separator: u8,
}

/// A child of a module: either a nested module or a declared signal,
/// each named by its index in the respective table.
#[derive(Debug, Clone, Copy, PartialEq, Eq, Structural)]
pub enum Node {
    Module(usize),
    Signal(usize),
}

/// The mapping of a module's children, from name to node. Entries are kept
/// in insertion order internally; the view is the mapping itself, where a
/// later insertion of the same name wins.
#[derive(Debug)]
pub struct ChildMap {
    pub entries: Vec<(Vec<u8>, Node)>,
}

/// The mapping an entry list denotes: entries applied in order.
pub open spec fn child_map_of(s: Seq<(Vec<u8>, Node)>) -> Map<Seq<u8>, Node>
    decreases s.len(),
{
    if s.len() == 0 {
        Map::empty()
    } else {
        child_map_of(s.drop_last()).insert(s.last().0@, s.last().1)
    }
}

impl View for ChildMap {
    type V = Map<Seq<u8>, Node>;

    open spec fn view(&self) -> Map<Seq<u8>, Node> {
        child_map_of(self.entries@)
    }
}

impl ChildMap {
    /// The empty mapping.
    pub fn new() -> (r: ChildMap)
        ensures
            r@ == Map::<Seq<u8>, Node>::empty(),
    {
        ChildMap { entries: Vec::new() }
    }

    /// Bind `name` to `node`, replacing any earlier binding.
    pub fn insert(&mut self, name: Vec<u8>, node: Node)
        ensures
            final(self)@ == old(self)@.insert(name@, node),
    {
        let ghost old_entries = self.entries@;
        let ghost namev = name@;
        self.entries.push((name, node));
        proof {
            assert(self.entries@.drop_last() =~= old_entries);
        }
    }
}

/// One module of the hierarchy: the index of its parent (a module that
/// appears earlier in the hierarchy list; the root is its own parent) and
/// its children by name.
#[derive(Debug)]
pub struct Module {
    pub parent: usize,
    pub children: ChildMap,
}

/// Specification-level image of a module.
#[verifier::ext_equal]
pub struct ModuleModel {
    pub parent: int,
    pub children: Map<Seq<u8>, Node>,
}

impl View for Module {
    type V = ModuleModel;

    open spec fn view(&self) -> ModuleModel {
        ModuleModel { parent: self.parent as int, children: self.children@ }
    }
}

/// The signal index: identifier code to index of the `sub_id = 0` record.
/// Keys are unique; the first recorded binding of an identifier is kept.
#[derive(Debug)]
pub struct IdMap {
    pub entries: Vec<(Vec<u8>, usize)>,
}

/// The mapping an entry list denotes.
pub open spec fn id_map_of(s: Seq<(Vec<u8>, usize)>) -> Map<Seq<u8>, usize>
    decreases s.len(),
{
    if s.len() == 0 {
        Map::empty()
    } else {
        id_map_of(s.drop_last()).insert(s.last().0@, s.last().1)
    }
}

impl View for IdMap {
    type V = Map<Seq<u8>, usize>;

    open spec fn view(&self) -> Map<Seq<u8>, usize> {
        id_map_of(self.entries@)
    }
}

proof fn lemma_id_map_membership(s: Seq<(Vec<u8>, usize)>, k: Seq<u8>)
    ensures
        id_map_of(s).contains_key(k) <==> exists|i: int| 0 <= i < s.len() && s[i].0@ == k,
    decreases s.len(),
{
    if s.len() > 0 {
        lemma_id_map_membership(s.drop_last(), k);
        if id_map_of(s).contains_key(k) {
            if s.last().0@ != k {
                let i = choose|i: int| 0 <= i < s.drop_last().len() && s.drop_last()[i].0@ == k;
                assert(s[i].0@ == k);
            }
        }
        if exists|i: int| 0 <= i < s.len() && s[i].0@ == k {
            let i = choose|i: int| 0 <= i < s.len() && s[i].0@ == k;
            if i < s.len() - 1 {
                assert(s.drop_last()[i].0@ == k);
            }
        }
    }
}

proof fn lemma_id_map_value(s: Seq<(Vec<u8>, usize)>, i: int)
    requires
        0 <= i < s.len(),
        forall|a: int, b: int| 0 <= a < b < s.len() ==> s[a].0@ != s[b].0@,
    ensures
        id_map_of(s).contains_key(s[i].0@),
        id_map_of(s)[s[i].0@] == s[i].1,
    decreases s.len(),
{
    if i == s.len() - 1 {
    } else {
        assert(s.drop_last()[i] == s[i]);
        lemma_id_map_value(s.drop_last(), i);
        assert(s[i].0@ != s.last().0@);
    }
}

impl IdMap {
    /// Whether the recorded identifiers are pairwise distinct.
    pub open spec fn wf(&self) -> bool {
        forall|a: int, b: int|
            0 <= a < b < self.entries@.len() ==> self.entries@[a].0@ != self.entries@[b].0@
    }

    /// The empty index.
    pub fn new() -> (r: IdMap)
        ensures
            r@ == Map::<Seq<u8>, usize>::empty(),
            r.wf(),
    {
        IdMap { entries: Vec::new() }
    }

    /// Look up an identifier.
    pub fn get(&self, id: &[u8]) -> (r: Option<usize>)
        requires
            self.wf(),
        ensures
            match r {
                Some(v) => self@.contains_key(id@) && self@[id@] == v,
                None => !self@.contains_key(id@),
            },
    {
        let n: usize = self.entries.len();
        let mut i: usize = 0;
        while i < n
            invariant
                0 <= i <= n == self.entries@.len(),
                self.wf(),
                forall|j: int| 0 <= j < i ==> self.entries@[j].0@ != id@,
            decreases n - i,
        {
            if eq_bytes(self.entries[i].0.as_slice(), id) {
                proof {
                    lemma_id_map_value(self.entries@, i as int);
                }
                return Some(self.entries[i].1);
            }
            i = i + 1;
        }
        proof {
            lemma_id_map_membership(self.entries@, id@);
        }
        None
    }

    /// Record a fresh identifier. Callers check absence first, so the
    /// keep-the-first rule for duplicate declarations is preserved.
    pub fn insert(&mut self, id: Vec<u8>, index: usize)
        requires
            old(self).wf(),
            !old(self)@.contains_key(id@),
        ensures
            final(self)@ == old(self)@.insert(id@, index),
            final(self).wf(),
    {
        proof {
            lemma_id_map_membership(self.entries@, id@);
        }
        let ghost old_entries = self.entries@;
        self.entries.push((id, index));
        proof {
            assert(self.entries@.drop_last() =~= old_entries);
            assert forall|a: int, b: int|
                0 <= a < b < self.entries@.len() implies self.entries@[a].0@
                != self.entries@[b].0@ by {
                if b == self.entries@.len() - 1 {
                    assert(self.entries@[a] == old_entries[a]);
                }
            }
        }
    }
}

/// One tracked bit. `states` is the three-slot toggle tracker: slot 0 the
/// first known value, slot 1 the first opposite value seen after it, slot 2
/// the first return to the initial value after slot 1. Each slot is written
/// at most once during the change phase.
#[derive(Debug)]
pub struct Signal {
    pub id: Vec<u8>,
    pub sub_id: u16,
    pub name: Vec<Vec<u8>>,
    pub states: [State; 3],
    pub initial_state: State,
}

/// The three toggle slots, as a specification value.
#[verifier::ext_equal]
pub struct TrackModel {
    pub s0: State,
    pub s1: State,
    pub s2: State,
}

/// Specification-level image of a tracked bit.
#[verifier::ext_equal]
pub struct BitModel {
    pub id: Seq<u8>,
    pub sub_id: int,
    pub name: Seq<Seq<u8>>,
    pub states: TrackModel,
    pub initial: State,
}

impl View for Signal {
    type V = BitModel;

    open spec fn view(&self) -> BitModel {
        BitModel {
            id: self.id@,
            sub_id: self.sub_id as int,
            name: self.name.deep_view(),
            states: TrackModel {
                s0: self.states@[0],
                s1: self.states@[1],
                s2: self.states@[2],
            },
            initial: self.initial_state,
        }
    }
}

/// The toggle-tracker step: how one non-ignored sample updates the three
/// slots. Unknown (`X`) samples are ignored; while slot 0 still holds an
/// unknown or high-impedance value, any sample re-seeds it; afterwards the
/// first opposite value fills slot 1 and the first return fills slot 2.
pub open spec fn spec_add_change(tr: TrackModel, st: State) -> TrackModel {
    if st.value == SignalValue::X {
        tr
    } else {
        match tr.s0.value {
            SignalValue::UP => {
                if st.value == SignalValue::DOWN && tr.s1.value == SignalValue::X {
                    TrackModel { s1: st, ..tr }
                } else if st.value == SignalValue::UP && tr.s1.value != SignalValue::X
                    && tr.s2.value == SignalValue::X {
                    TrackModel { s2: st, ..tr }
                } else {
                    tr
                }
            },
            SignalValue::DOWN => {
                if st.value == SignalValue::UP && tr.s1.value == SignalValue::X {
                    TrackModel { s1: st, ..tr }
                } else if st.value == SignalValue::DOWN && tr.s1.value != SignalValue::X
                    && tr.s2.value == SignalValue::X {
                    TrackModel { s2: st, ..tr }
                } else {
                    tr
                }
            },
            _ => TrackModel { s0: st, ..tr },
        }
    }
}

/// Whether the bit has been seen to move up from a low level (or back up
/// to a high one): the "up transition" half of full toggle coverage.
pub open spec fn spec_has_up(tr: TrackModel) -> bool {
    match tr.s0.value {
        SignalValue::UP => tr.s2.value != SignalValue::X,
        SignalValue::DOWN => tr.s1.value != SignalValue::X,
        _ => false,
    }
}

/// The "down transition" half, the mirror image of [`spec_has_up`].
pub open spec fn spec_has_down(tr: TrackModel) -> bool {
    match tr.s0.value {
        SignalValue::UP => tr.s1.value != SignalValue::X,
        SignalValue::DOWN => tr.s2.value != SignalValue::X,
        _ => false,
    }
}

/// Coverage of one bit in half units: 0, 1 or 2 halves, i.e. 0.0, 0.5
/// or 1.0.
pub open spec fn spec_coverage_halves(tr: TrackModel) -> int {
    (if spec_has_up(tr) {
        1int
    } else {
        0int
    }) + (if spec_has_down(tr) {
        1int
    } else {
        0int
    })
}

impl Signal {
    /// Fold one sample of the change phase into the toggle tracker.
    /// Everything but the three slots is left untouched.
    pub fn add_change(&mut self, state: State)
        ensures
            final(self)@ == (BitModel {
                states: spec_add_change(old(self)@.states, state),
                ..old(self)@
            }),
    {
        if state.value != SignalValue::X {
            match self.states[0].value {
                SignalValue::UP => {
                    if state.value == SignalValue::DOWN && self.states[1].value == SignalValue::X {
                        self.states[1] = state;
                    } else if state.value == SignalValue::UP && self.states[1].value
                        != SignalValue::X && self.states[2].value == SignalValue::X {
                        self.states[2] = state;
                    }
                },
                SignalValue::DOWN => {
                    if state.value == SignalValue::UP && self.states[1].value == SignalValue::X {
                        self.states[1] = state;
                    } else if state.value == SignalValue::DOWN && self.states[1].value
                        != SignalValue::X && self.states[2].value == SignalValue::X {
                        self.states[2] = state;
                    }
                },
                _ => {
                    self.states[0] = state;
                },
            }
        }
        assert(self@ =~= (BitModel { states: spec_add_change(old(self)@.states, state), ..old(
            self,
        )@ }));
    }

    /// Seed the bit's initial value: the initial state and slot 0 take the
    /// sample, and the toggle-witness slots stay as they were.
    pub fn seed(&mut self, value: SignalValue, time: i64)
        ensures
            final(self)@ == (BitModel {
                states: TrackModel {
                    s0: State { value, time },
                    s1: old(self)@.states.s1,
                    s2: old(self)@.states.s2,
                },
                initial: State { value, time },
                ..old(self)@
            }),
    {
        let st = State { value, time };
        self.states[0] = st;
        self.initial_state = st;
        assert(self@ =~= (BitModel {
            states: TrackModel {
                s0: st,
                s1: old(self)@.states.s1,
                s2: old(self)@.states.s2,
            },
            initial: st,
            ..old(self)@
        }));
    }

    /// Whether this bit witnessed an up transition.
    pub fn has_transitioned_up(&self) -> (r: bool)
        ensures
            r == spec_has_up(self@.states),
    {
        match self.states[0].value {
            SignalValue::UP => self.states[2].value != SignalValue::X,
            SignalValue::DOWN => self.states[1].value != SignalValue::X,
            _ => false,
        }
    }

    /// Whether this bit witnessed a down transition.
    pub fn has_transitioned_down(&self) -> (r: bool)
        ensures
            r == spec_has_down(self@.states),
    {
        match self.states[0].value {
            SignalValue::UP => self.states[1].value != SignalValue::X,
            SignalValue::DOWN => self.states[2].value != SignalValue::X,
            _ => false,
        }
    }

    /// Coverage of this bit in half units (0, 1 or 2).
    pub fn coverage_halves(&self) -> (r: u8)
        ensures
            r == spec_coverage_halves(self@.states),
            r <= 2,
    {
        let up: u8 = if self.has_transitioned_up() {
            1
        } else {
            0
        };
        let down: u8 = if self.has_transitioned_down() {
            1
        } else {
            0
        };
        up + down
    }
}

/// Coverage is always 0, 1 or 2 half units — that is, 0.0, 0.5 or 1.0.
pub proof fn lemma_coverage_range(tr: TrackModel)
    ensures
        0 <= spec_coverage_halves(tr) <= 2,
{
}

/// Coverage is full exactly when both transitions were witnessed, and half
/// exactly when one of the two was witnessed but not the other.
pub proof fn lemma_coverage_characterisation(tr: TrackModel)
    ensures
        (spec_has_up(tr) && spec_has_down(tr)) <==> spec_coverage_halves(tr) == 2,
        (spec_has_up(tr) != spec_has_down(tr)) <==> spec_coverage_halves(tr) == 1,
        (!spec_has_up(tr) && !spec_has_down(tr)) <==> spec_coverage_halves(tr) == 0,
{
}

/// Folding a whole sequence of samples into the tracker.
pub open spec fn spec_apply_changes(tr: TrackModel, samples: Seq<State>) -> TrackModel
    decreases samples.len(),
{
    if samples.len() == 0 {
        tr
    } else {
        spec_apply_changes(spec_add_change(tr, samples[0]), samples.drop_first())
    }
}

/// Width independence: what a bit's coverage becomes after a sequence of
/// samples depends on its toggle slots alone — not on its identifier, its
/// position inside a bus, or its name. Two bits that start from the same
/// slots and see the same samples end with the same coverage, however the
/// surrounding declarations grouped them.
pub proof fn lemma_width_independence(a: BitModel, b: BitModel, samples: Seq<State>)
    requires
        a.states == b.states,
    ensures
        spec_coverage_halves(spec_apply_changes(a.states, samples)) == spec_coverage_halves(
            spec_apply_changes(b.states, samples),
        ),
{
}


/// The unset sample a fresh bit starts from.
pub open spec fn unset_state() -> State {
    State { value: SignalValue::X, time: (-1) as i64 }
}

/// The populated aggregate: hierarchy, one record per bit, and the signal
/// index from identifier to the bit with `sub_id = 0`.
#[derive(Debug)]
pub struct VCD {
    pub hierarchy: Vec<Module>,
    pub signals: Vec<Signal>,
    pub signals_by_id: IdMap,
}

/// Specification-level image of the aggregate.
#[verifier::ext_equal]
pub struct VcdModel {
    pub hierarchy: Seq<ModuleModel>,
    pub signals: Seq<BitModel>,
    pub index: Map<Seq<u8>, usize>,
}

impl View for VCD {
    type V = VcdModel;

    open spec fn view(&self) -> VcdModel {
        VcdModel {
            hierarchy: Seq::new(self.hierarchy@.len(), |i: int| self.hierarchy@[i]@),
            signals: Seq::new(self.signals@.len(), |i: int| self.signals@[i]@),
            index: self.signals_by_id@,
        }
    }
}

/// Well-formedness of the aggregate:
/// - the hierarchy has the root at index 0, its own parent, and every other
///   module's parent appears strictly earlier;
/// - every index entry points at an in-range bit that carries that
///   identifier and `sub_id = 0`;
/// - bits of one declaration are contiguous: a bit with `sub_id = k + 1`
///   directly follows the bit with `sub_id = k` of the same identifier.
pub open spec fn hierarchy_wf(h: Seq<ModuleModel>) -> bool {
    &&& h.len() >= 1
    &&& h[0].parent == 0
    &&& forall|i: int| 1 <= i < h.len() ==> 0 <= #[trigger] h[i].parent < i
}

pub open spec fn vcd_wf(v: VcdModel) -> bool {
    &&& hierarchy_wf(v.hierarchy)
    &&& forall|id: Seq<u8>|
        #[trigger] v.index.contains_key(id) ==> v.index[id] < v.signals.len()
            && v.signals[v.index[id] as int].id == id
            && v.signals[v.index[id] as int].sub_id == 0
    &&& forall|i: int|
        0 <= i < v.signals.len() && #[trigger] v.signals[i].sub_id > 0 ==> i >= 1
            && v.signals[i - 1].id == v.signals[i].id
            && v.signals[i - 1].sub_id + 1 == v.signals[i].sub_id
}

/// The errors the indexer can stop with.
#[derive(Debug)]
pub enum IndexError {
    /// The lexer reported a parse error; `text` is the offending line.
    Parse { line: u64, text: Vec<u8> },
    /// A change line referenced an identifier never declared.
    UnknownId { line: u64, id: Vec<u8> },
    /// A change line carried more sample bytes than the declared width,
    /// or a declaration was too wide to track.
    WidthExceeded { line: u64, id: Vec<u8> },
    /// An `$upscope` with no matching `$scope`.
    UnbalancedScope { line: u64 },
    /// An event that cannot occur in the current section.
    UnexpectedEvent { line: u64 },
}

/// Specification-level image of an error.
#[verifier::ext_equal]
pub enum ErrorModel {
    Parse { line: int, text: Seq<u8> },
    UnknownId { line: int, id: Seq<u8> },
    WidthExceeded { line: int, id: Seq<u8> },
    UnbalancedScope { line: int },
    UnexpectedEvent { line: int },
}

impl View for IndexError {
    type V = ErrorModel;

    open spec fn view(&self) -> ErrorModel {
        match self {
            IndexError::Parse { line, text } => ErrorModel::Parse {
                line: *line as int,
                text: text@,
            },
            IndexError::UnknownId { line, id } => ErrorModel::UnknownId {
                line: *line as int,
                id: id@,
            },
            IndexError::WidthExceeded { line, id } => ErrorModel::WidthExceeded {
                line: *line as int,
                id: id@,
            },
            IndexError::UnbalancedScope { line } => ErrorModel::UnbalancedScope {
                line: *line as int,
            },
            IndexError::UnexpectedEvent { line } => ErrorModel::UnexpectedEvent {
                line: *line as int,
            },
        }
    }
}

/// The scope context of the declaration phase: the stack of open module
/// indices (the root at the bottom) and the matching stack of scope names.
#[derive(Debug)]
pub struct InfoTranslator {
    pub module_stack: Vec<usize>,
    pub name_stack: Vec<Vec<u8>>,
}

/// Specification-level image of the scope context.
#[verifier::ext_equal]
pub struct TranslatorModel {
    pub stack: Seq<int>,
    pub names: Seq<Seq<u8>>,
}

impl View for InfoTranslator {
    type V = TranslatorModel;

    open spec fn view(&self) -> TranslatorModel {
        TranslatorModel {
            stack: Seq::new(self.module_stack@.len(), |i: int| self.module_stack@[i] as int),
            names: self.name_stack.deep_view(),
        }
    }
}

/// The display name of bit `k` of a declaration: the declared name itself
/// for a single-bit variable, otherwise the name with `[k]` appended.
pub open spec fn display_name(name: Seq<u8>, w: int, k: int) -> Seq<u8> {
    if w == 1 {
        name
    } else {
        name + seq![91u8] + dec_digits(k) + seq![93u8]
    }
}

/// The fresh record of bit `k` of a declaration, with the scope path
/// `names` extended by the bit's display name.
pub open spec fn new_bit(s: crate::lexer::SignalModel, names: Seq<Seq<u8>>, k: int) -> BitModel {
    BitModel {
        id: s.id,
        sub_id: k,
        name: names.push(display_name(s.name, s.num_values, k)),
        states: TrackModel { s0: unset_state(), s1: unset_state(), s2: unset_state() },
        initial: unset_state(),
    }
}

/// The aggregate after one declaration: `w` fresh bits appended, the
/// identifier recorded if new (the first declaration of an identifier
/// wins), and a child link added under the enclosing module. A width of
/// zero declares nothing.
pub open spec fn spec_push(
    v: VcdModel,
    top: int,
    names: Seq<Seq<u8>>,
    s: crate::lexer::SignalModel,
) -> VcdModel {
    let w = s.num_values;
    let base = v.signals.len() as usize;
    VcdModel {
        hierarchy: if w >= 1 {
            v.hierarchy.update(
                top,
                ModuleModel {
                    parent: v.hierarchy[top].parent,
                    children: v.hierarchy[top].children.insert(s.name, Node::Signal(base)),
                },
            )
        } else {
            v.hierarchy
        },
        signals: v.signals + Seq::new(w as nat, |k: int| new_bit(s, names, k)),
        index: if w >= 1 && !v.index.contains_key(s.id) {
            v.index.insert(s.id, base)
        } else {
            v.index
        },
    }
}

/// A bit after its initial value is seeded: the initial state and slot 0
/// take the sample; slots 1 and 2 stay unset, so that slot 1 can later
/// witness the first value that differs from the seeded one.
pub open spec fn seeded_bit(b: BitModel, sample: u8, time: i64) -> BitModel {
    let st = State { value: spec_value_of_byte(sample), time };
    BitModel {
        states: TrackModel { s0: st, s1: b.states.s1, s2: b.states.s2 },
        initial: st,
        ..b
    }
}

/// A bit after one change-phase sample is folded into its toggle slots.
pub open spec fn toggled_bit(b: BitModel, sample: u8, time: i64) -> BitModel {
    BitModel {
        states: spec_add_change(b.states, State { value: spec_value_of_byte(sample), time }),
        ..b
    }
}

/// Whether a change fits the declaration it refers to: the identifier is
/// declared and bit `k` of the change lands on the record with `sub_id = k`
/// of that identifier, for every sample carried.
pub open spec fn change_ok(v: VcdModel, c: crate::lexer::ChangeModel) -> bool {
    &&& v.index.contains_key(c.signal_id)
    &&& forall|k: int|
        0 <= k < c.values.len() ==> v.index[c.signal_id] + k < v.signals.len() && (#[trigger]
        v.signals[v.index[c.signal_id] + k]).sub_id == k
}

/// The aggregate after a change is applied to the bits it addresses:
/// seeding them in the initialisation phase, toggling them in the change
/// phase.
pub open spec fn spec_change(
    v: VcdModel,
    c: crate::lexer::ChangeModel,
    time: i64,
    seed_phase: bool,
) -> VcdModel {
    let base = v.index[c.signal_id] as int;
    VcdModel {
        signals: Seq::new(
            v.signals.len(),
            |i: int|
                if base <= i < base + c.values.len() {
                    if seed_phase {
                        seeded_bit(v.signals[i], c.values[i - base], time)
                    } else {
                        toggled_bit(v.signals[i], c.values[i - base], time)
                    }
                } else {
                    v.signals[i]
                },
        ),
        ..v
    }
}

impl VCD {
    /// Exec-level well-formedness: the model invariant plus unique keys in
    /// the concrete index.
    pub open spec fn inv(&self) -> bool {
        self.signals_by_id.wf() && vcd_wf(self@)
    }

    /// The empty aggregate: just the implicit root module.
    pub fn new() -> (r: VCD)
        ensures
            r.inv(),
            r@.hierarchy =~= seq![
                ModuleModel { parent: 0, children: Map::<Seq<u8>, Node>::empty() },
            ],
            r@.signals =~= Seq::<BitModel>::empty(),
            r@.index =~= Map::<Seq<u8>, usize>::empty(),
    {
        let mut hierarchy: Vec<Module> = Vec::new();
        hierarchy.push(Module { parent: 0, children: ChildMap::new() });
        VCD { hierarchy, signals: Vec::new(), signals_by_id: IdMap::new() }
    }

    /// Read access to the `sub_id`-th bit of an identifier, if it exists.
    pub fn get_signal(&self, id: &[u8], sub_id: usize) -> (r: Option<&Signal>)
        requires
            self.inv(),
        ensures
            match r {
                Some(s) => self@.index.contains_key(id@) && self@.index[id@] + sub_id
                    < self@.signals.len() && s@ == self@.signals[self@.index[id@] + sub_id],
                None => !self@.index.contains_key(id@) || self@.index[id@] + sub_id
                    >= self@.signals.len(),
            },
    {
        match self.signals_by_id.get(id) {
            None => None,
            Some(base) => {
                if sub_id < self.signals.len() - base {
                    Some(&self.signals[base + sub_id])
                } else {
                    None
                }
            },
        }
    }

    /// Append the bits of one declaration (phase A). `translator` supplies
    /// the enclosing module and the scope path.
    pub fn push(&mut self, signal: &crate::lexer::Signal, translator: &InfoTranslator)
        requires
            old(self).inv(),
            translator.module_stack@.len() >= 1,
            0 <= translator@.stack.last() < old(self)@.hierarchy.len(),
            signal@.num_values <= 65536,
        ensures
            final(self).inv(),
            final(self)@ == spec_push(
                old(self)@,
                translator@.stack.last(),
                translator@.names,
                signal@,
            ),
    {
        let ghost goal = spec_push(old(self)@, translator@.stack.last(), translator@.names, signal@);
        let w: usize = signal.num_values;
        let base: usize = self.signals.len();
        let top: usize = translator.module_stack[translator.module_stack.len() - 1];
        if w >= 1 {
            if self.signals_by_id.get(signal.id.as_slice()).is_none() {
                let id_copy = subvec(signal.id.as_slice(), 0, signal.id.len());
                assert(id_copy@ =~= signal@.id);
                self.signals_by_id.insert(id_copy, base);
            }
            let name_copy = subvec(signal.name.as_slice(), 0, signal.name.len());
            assert(name_copy@ =~= signal@.name);
            self.hierarchy[top].children.insert(name_copy, Node::Signal(base));
        }
        assert(self@.hierarchy =~= goal.hierarchy);
        assert(self@.index =~= goal.index);
        assert(self@.signals =~= old(self)@.signals);
        let ghost mid = self@;
        let mut k: usize = 0;
        while k < w
            invariant
                0 <= k <= w <= 65536,
                w == signal@.num_values,
                base == mid.signals.len(),
                self.signals_by_id.wf(),
                self@.hierarchy == mid.hierarchy,
                self@.index == mid.index,
                self@.signals =~= mid.signals + Seq::new(
                    k as nat,
                    |j: int| new_bit(signal@, translator@.names, j),
                ),
            decreases w - k,
        {
            let mut path = copy_paths(&translator.name_stack);
            let mut disp = subvec(signal.name.as_slice(), 0, signal.name.len());
            assert(disp@ =~= signal@.name);
            if w != 1 {
                disp.push(91);
                push_dec(&mut disp, k as u64);
                disp.push(93);
                assert(disp@ =~= display_name(signal@.name, signal@.num_values, k as int));
            }
            let ghost path_snap = path.deep_view();
            let ghost disp_snap = disp@;
            path.push(disp);
            proof {
                assert forall|j: int|
                    0 <= j < path@.len() implies path.deep_view()[j]
                    == path_snap.push(disp_snap)[j] by {
                    if j < path_snap.len() {
                        assert(path@[j].deep_view() == path_snap[j]);
                    } else {
                        assert(path@[j].deep_view() =~= disp_snap);
                    }
                }
                assert(path.deep_view() =~= path_snap.push(disp_snap));
            }
            let un = State { value: SignalValue::X, time: -1 };
            let s = Signal {
                id: subvec(signal.id.as_slice(), 0, signal.id.len()),
                sub_id: k as u16,
                name: path,
                states: [un;3],
                initial_state: un,
            };
            assert(s@ =~= new_bit(signal@, translator@.names, k as int));
            let ghost s_raw = s;
            let ghost prev_raw = self.signals@;
            let ghost prev_model = self@.signals;
            self.signals.push(s);
            proof {
                let target = mid.signals + Seq::new(
                    (k + 1) as nat,
                    |j: int| new_bit(signal@, translator@.names, j),
                );
                assert(self.signals@ == prev_raw.push(s_raw));
                assert(prev_model.len() == prev_raw.len());
                assert(prev_model.len() == mid.signals.len() + k);
                assert(self@.signals.len() == prev_raw.len() + 1);
                assert(target.len() == mid.signals.len() + k + 1);
                assert forall|i: int| 0 <= i < self@.signals.len() implies self@.signals[i]
                    == target[i] by {
                    if i < prev_raw.len() {
                        assert(self.signals@[i] == prev_raw[i]);
                        assert(self@.signals[i] == prev_raw[i]@);
                        assert(prev_model[i] == prev_raw[i]@);
                        assert(prev_model[i] == (mid.signals + Seq::new(
                            k as nat,
                            |j: int| new_bit(signal@, translator@.names, j),
                        ))[i]);
                        if i < mid.signals.len() {
                            assert(target[i] == mid.signals[i]);
                            assert(prev_model[i] == mid.signals[i]);
                        } else {
                            assert(target[i] == new_bit(
                                signal@,
                                translator@.names,
                                i - mid.signals.len(),
                            ));
                            assert(prev_model[i] == new_bit(
                                signal@,
                                translator@.names,
                                i - mid.signals.len(),
                            ));
                        }
                    } else {
                        assert(i == prev_raw.len());
                        assert(self.signals@[i] == s_raw);
                        assert(self@.signals[i] == s_raw@);
                        assert(s_raw@ == new_bit(signal@, translator@.names, k as int));
                        assert(target[i] == new_bit(signal@, translator@.names, k as int));
                    }
                }
                assert(self@.signals =~= target);
            }
            k = k + 1;
        }
        assert(self@ =~= goal);
        proof {
            assert(old(self)@.signals.len() <= usize::MAX);
            lemma_push_preserves_wf(old(self)@, translator@.stack.last(), translator@.names, signal@);
        }
    }
}

/// Copy a path of name segments.
fn copy_paths(v: &Vec<Vec<u8>>) -> (r: Vec<Vec<u8>>)
    ensures
        r.deep_view() == v.deep_view(),
{
    let n: usize = v.len();
    let mut r: Vec<Vec<u8>> = Vec::new();
    while r.len() < n
        invariant
            r@.len() <= n == v@.len(),
            forall|j: int| 0 <= j < r@.len() ==> #[trigger] r@[j]@ == v@[j]@,
        decreases n - r@.len(),
    {
        let i = r.len();
        r.push(subvec(v[i].as_slice(), 0, v[i].len()));
        assert(r@[i as int]@ =~= v@[i as int]@);
    }
    proof {
        assert forall|j: int| 0 <= j < n implies r.deep_view()[j] == v.deep_view()[j] by {
            assert(r@[j].deep_view() =~= r@[j]@);
            assert(v@[j].deep_view() =~= v@[j]@);
        }
        assert(r.deep_view() =~= v.deep_view());
    }
    r
}

/// Appending the bits of one declaration preserves well-formedness.
proof fn lemma_push_preserves_wf(
    v: VcdModel,
    top: int,
    names: Seq<Seq<u8>>,
    s: crate::lexer::SignalModel,
)
    requires
        vcd_wf(v),
        0 <= top < v.hierarchy.len(),
        0 <= s.num_values <= 65536,
        v.signals.len() <= usize::MAX,
    ensures
        vcd_wf(spec_push(v, top, names, s)),
{
    let v2 = spec_push(v, top, names, s);
    let base = v.signals.len() as int;
    let w = s.num_values;
    assert forall|id: Seq<u8>| #[trigger] v2.index.contains_key(id) implies v2.index[id]
        < v2.signals.len() && v2.signals[v2.index[id] as int].id == id
        && v2.signals[v2.index[id] as int].sub_id == 0 by {
        if v.index.contains_key(id) {
            assert(v2.signals[v.index[id] as int] == v.signals[v.index[id] as int]);
            assert(v2.index[id] == v.index[id]);
        } else {
            assert(id == s.id && v2.index[id] == base);
            assert(v2.signals[base] == new_bit(s, names, 0));
        }
    }
    assert forall|i: int|
        0 <= i < v2.signals.len() && #[trigger] v2.signals[i].sub_id > 0 implies i >= 1
        && v2.signals[i - 1].id == v2.signals[i].id
        && v2.signals[i - 1].sub_id + 1 == v2.signals[i].sub_id by {
        if i < base {
            assert(v2.signals[i] == v.signals[i]);
            if i >= 1 {
                assert(v2.signals[i - 1] == v.signals[i - 1]);
            }
        } else {
            assert(v2.signals[i] == new_bit(s, names, i - base));
            if i - base > 0 {
                assert(v2.signals[i - 1] == new_bit(s, names, i - base - 1));
            }
        }
    }
}


/// The error a misaddressed change produces: an undeclared identifier, or
/// more samples than declared bits.
pub open spec fn change_err(v: VcdModel, c: crate::lexer::ChangeModel, line: int) -> ErrorModel {
    if !v.index.contains_key(c.signal_id) {
        ErrorModel::UnknownId { line, id: c.signal_id }
    } else {
        ErrorModel::WidthExceeded { line, id: c.signal_id }
    }
}

/// Applying a change preserves well-formedness: identifiers and sub-ids
/// of every bit are untouched.
proof fn lemma_change_preserves_wf(
    v: VcdModel,
    c: crate::lexer::ChangeModel,
    time: i64,
    seed_phase: bool,
)
    requires
        vcd_wf(v),
    ensures
        vcd_wf(spec_change(v, c, time, seed_phase)),
{
    let v2 = spec_change(v, c, time, seed_phase);
    assert forall|i: int| 0 <= i < v2.signals.len() implies #[trigger] v2.signals[i].id
        == v.signals[i].id && v2.signals[i].sub_id == v.signals[i].sub_id by {}
    assert forall|id: Seq<u8>| #[trigger] v2.index.contains_key(id) implies v2.index[id]
        < v2.signals.len() && v2.signals[v2.index[id] as int].id == id
        && v2.signals[v2.index[id] as int].sub_id == 0 by {
        assert(v.index.contains_key(id));
    }
    assert forall|i: int|
        0 <= i < v2.signals.len() && #[trigger] v2.signals[i].sub_id > 0 implies i >= 1
        && v2.signals[i - 1].id == v2.signals[i].id
        && v2.signals[i - 1].sub_id + 1 == v2.signals[i].sub_id by {
        assert(v.signals[i].sub_id == v2.signals[i].sub_id);
    }
}

impl VCD {
    /// Find the base record a change addresses, checking that every sample
    /// lands on a bit of the declared width.
    fn locate(&self, change: &Change, line: u64) -> (r: Result<usize, IndexError>)
        requires
            self.inv(),
        ensures
            r is Ok <==> change_ok(self@, change@),
            r matches Ok(base) ==> self@.index.contains_key(change@.signal_id) && base
                == self@.index[change@.signal_id],
            r matches Err(e) ==> e@ == change_err(self@, change@, line as int),
    {
        match self.signals_by_id.get(change.signal_id.as_slice()) {
            None => {
                let idc = subvec(change.signal_id.as_slice(), 0, change.signal_id.len());
                assert(idc@ =~= change@.signal_id);
                Err(IndexError::UnknownId { line, id: idc })
            },
            Some(base) => {
                let n: usize = change.values.len();
                let mut k: usize = 0;
                while k < n
                    invariant
                        0 <= k <= n == change@.values.len(),
                        self.inv(),
                        self@.index.contains_key(change@.signal_id),
                        base == self@.index[change@.signal_id],
                        base < self@.signals.len(),
                        forall|j: int|
                            0 <= j < k ==> base + j < self@.signals.len() && (#[trigger]
                            self@.signals[base + j]).sub_id == j,
                    decreases n - k,
                {
                    let fits = k < self.signals.len() - base;
                    if fits {
                        let sid = self.signals[base + k].sub_id;
                        proof {
                            assert(self@.signals[base + k] == self.signals@[base + k]@);
                        }
                        if sid as usize != k {
                            let idc = subvec(
                                change.signal_id.as_slice(),
                                0,
                                change.signal_id.len(),
                            );
                            assert(idc@ =~= change@.signal_id);
                            proof {
                                if change_ok(self@, change@) {
                                    assert(self@.signals[base + k].sub_id == k);
                                }
                            }
                            return Err(IndexError::WidthExceeded { line, id: idc });
                        }
                    } else {
                        let idc = subvec(change.signal_id.as_slice(), 0, change.signal_id.len());
                        assert(idc@ =~= change@.signal_id);
                        proof {
                            if change_ok(self@, change@) {
                                assert(base + k < self@.signals.len() && self@.signals[base
                                    + k].sub_id == k);
                            }
                        }
                        return Err(IndexError::WidthExceeded { line, id: idc });
                    }
                    k = k + 1;
                }
                Ok(base)
            },
        }
    }

    /// Seed the bits a change addresses with their initial value
    /// (initialisation phase). On error the aggregate is unchanged.
    pub fn seed_change(&mut self, change: &Change, time: i64, line: u64) -> (r: Result<
        (),
        IndexError,
    >)
        requires
            old(self).inv(),
        ensures
            final(self).inv(),
            r is Ok <==> change_ok(old(self)@, change@),
            r is Ok ==> final(self)@ == spec_change(old(self)@, change@, time, true),
            r is Err ==> final(self)@ == old(self)@,
            r matches Err(e) ==> e@ == change_err(old(self)@, change@, line as int),
    {
        let base = match self.locate(change, line) {
            Ok(b) => b,
            Err(e) => {
                return Err(e);
            },
        };
        let ghost start = self@;
        let n: usize = change.values.len();
        let mut k: usize = 0;
        while k < n
            invariant
                0 <= k <= n == change@.values.len(),
                change_ok(start, change@),
                base == start.index[change@.signal_id],
                self.signals_by_id.wf(),
                self@.hierarchy == start.hierarchy,
                self@.index == start.index,
                self@.signals.len() == start.signals.len(),
                self.signals@.len() == start.signals.len(),
                forall|i: int|
                    0 <= i < start.signals.len() ==> #[trigger] self@.signals[i] == (if base <= i
                        < base + k {
                        seeded_bit(start.signals[i], change@.values[i - base], time)
                    } else {
                        start.signals[i]
                    }),
            decreases n - k,
        {
            let sv = SignalValue::from_byte(change.values[k]);
            let len_now: usize = self.signals.len();
            proof {
                assert(base + k < start.signals.len() && start.signals[base + k].sub_id == k);
                assert(base + k < len_now);
            }
            let ghost before_model = self@.signals;
            let ghost before_raw = self.signals@;
            self.signals[base + k].seed(sv, time);
            proof {
                assert(self.signals@[base + k]@ == seeded_bit(
                    before_raw[base + k]@,
                    change@.values[k as int],
                    time,
                ));
                assert forall|i: int| 0 <= i < start.signals.len() implies #[trigger]
                    self@.signals[i] == (if base <= i < base + (k + 1) {
                    seeded_bit(start.signals[i], change@.values[i - base], time)
                } else {
                    start.signals[i]
                }) by {
                    assert(self@.signals[i] == self.signals@[i]@);
                    if i == base + k {
                        assert(before_model[i] == start.signals[i]);
                        assert(before_raw[i]@ == before_model[i]);
                    } else {
                        assert(self.signals@[i] == before_raw[i]);
                        assert(self@.signals[i] == before_model[i]);
                    }
                }
            }
            k = k + 1;
        }
        proof {
            assert(self@.signals =~= spec_change(start, change@, time, true).signals);
            assert(self@ =~= spec_change(start, change@, time, true));
            lemma_change_preserves_wf(start, change@, time, true);
        }
        Ok(())
    }

    /// Fold the samples of a change-phase line into the toggle trackers of
    /// the bits it addresses. On error the aggregate is unchanged.
    pub fn add_change(&mut self, change: &Change, time: i64, line: u64) -> (r: Result<
        (),
        IndexError,
    >)
        requires
            old(self).inv(),
        ensures
            final(self).inv(),
            r is Ok <==> change_ok(old(self)@, change@),
            r is Ok ==> final(self)@ == spec_change(old(self)@, change@, time, false),
            r is Err ==> final(self)@ == old(self)@,
            r matches Err(e) ==> e@ == change_err(old(self)@, change@, line as int),
    {
        let base = match self.locate(change, line) {
            Ok(b) => b,
            Err(e) => {
                return Err(e);
            },
        };
        let ghost start = self@;
        let n: usize = change.values.len();
        let mut k: usize = 0;
        while k < n
            invariant
                0 <= k <= n == change@.values.len(),
                change_ok(start, change@),
                base == start.index[change@.signal_id],
                self.signals_by_id.wf(),
                self@.hierarchy == start.hierarchy,
                self@.index == start.index,
                self@.signals.len() == start.signals.len(),
                self.signals@.len() == start.signals.len(),
                forall|i: int|
                    0 <= i < start.signals.len() ==> #[trigger] self@.signals[i] == (if base <= i
                        < base + k {
                        toggled_bit(start.signals[i], change@.values[i - base], time)
                    } else {
                        start.signals[i]
                    }),
            decreases n - k,
        {
            let sv = SignalValue::from_byte(change.values[k]);
            let len_now: usize = self.signals.len();
            proof {
                assert(base + k < start.signals.len() && start.signals[base + k].sub_id == k);
                assert(base + k < len_now);
            }
            let ghost before_model = self@.signals;
            let ghost before_raw = self.signals@;
            self.signals[base + k].add_change(State { value: sv, time });
            proof {
                assert(self.signals@[base + k]@ == toggled_bit(
                    before_raw[base + k]@,
                    change@.values[k as int],
                    time,
                ));
                assert forall|i: int| 0 <= i < start.signals.len() implies #[trigger]
                    self@.signals[i] == (if base <= i < base + (k + 1) {
                    toggled_bit(start.signals[i], change@.values[i - base], time)
                } else {
                    start.signals[i]
                }) by {
                    assert(self@.signals[i] == self.signals@[i]@);
                    if i == base + k {
                        assert(before_model[i] == start.signals[i]);
                        assert(before_raw[i]@ == before_model[i]);
                    } else {
                        assert(self.signals@[i] == before_raw[i]);
                        assert(self@.signals[i] == before_model[i]);
                    }
                }
            }
            k = k + 1;
        }
        proof {
            assert(self@.signals =~= spec_change(start, change@, time, false).signals);
            assert(self@ =~= spec_change(start, change@, time, false));
            lemma_change_preserves_wf(start, change@, time, false);
        }
        Ok(())
    }
}

/// The analyser state: the aggregate under construction, the scope
/// context, the current section and the current timestamp.
#[derive(Debug)]
pub struct Indexer {
    pub vcd: VCD,
    pub translator: InfoTranslator,
    pub part: Part,
    pub current_timestamp: i64,
}

/// Specification-level image of the analyser state.
#[verifier::ext_equal]
pub struct IndexerModel {
    pub vcd: VcdModel,
    pub stack: Seq<int>,
    pub names: Seq<Seq<u8>>,
    pub part: Part,
    pub time: i64,
}

impl View for Indexer {
    type V = IndexerModel;

    open spec fn view(&self) -> IndexerModel {
        IndexerModel {
            vcd: self.vcd@,
            stack: self.translator@.stack,
            names: self.translator@.names,
            part: self.part,
            time: self.current_timestamp,
        }
    }
}

/// The analyser before any event: the aggregate holds just the root, the
/// scope stack holds the root, time is the "unset" value.
pub open spec fn init_indexer() -> IndexerModel {
    IndexerModel {
        vcd: VcdModel {
            hierarchy: seq![ModuleModel { parent: 0, children: Map::<Seq<u8>, Node>::empty() }],
            signals: Seq::<BitModel>::empty(),
            index: Map::<Seq<u8>, usize>::empty(),
        },
        stack: seq![0],
        names: Seq::<Seq<u8>>::empty(),
        part: Part::Declarations,
        time: (-1) as i64,
    }
}

/// Well-formedness of the analyser state: the aggregate is well-formed and
/// the scope stack starts at the root, stays inside the hierarchy, and has
/// one name per open scope above the root.
pub open spec fn indexer_wf(m: IndexerModel) -> bool {
    &&& vcd_wf(m.vcd)
    &&& m.stack.len() >= 1
    &&& m.stack[0] == 0
    &&& forall|i: int| 0 <= i < m.stack.len() ==> 0 <= #[trigger] m.stack[i] < m.vcd.hierarchy.len()
    &&& m.names.len() == m.stack.len() - 1
}

/// The analyser state after a `$scope` is opened: a fresh module is
/// appended under the current top, linked as its child, and both stacks
/// grow by one.
pub open spec fn spec_in_scope(m: IndexerModel, name: Seq<u8>) -> IndexerModel {
    let top = m.stack.last();
    let newi = m.vcd.hierarchy.len() as usize;
    let h1 = m.vcd.hierarchy.push(ModuleModel { parent: top, children: Map::empty() });
    let h2 = h1.update(
        top,
        ModuleModel {
            parent: h1[top].parent,
            children: h1[top].children.insert(name, Node::Module(newi)),
        },
    );
    IndexerModel {
        vcd: VcdModel { hierarchy: h2, ..m.vcd },
        stack: m.stack.push(newi as int),
        names: m.names.push(name),
        ..m
    }
}

/// One analyser step. Which events are lawful depends on the current
/// section; every unlawful event, and every change that does not fit its
/// declaration, stops the analysis with an error.
pub open spec fn index_step(m: IndexerModel, ev: EventModel, line: int) -> Result<
    IndexerModel,
    ErrorModel,
> {
    match m.part {
        Part::Declarations => match ev {
            EventModel::Signal(s) => if s.num_values < 0 || s.num_values > 65536 {
                Err(ErrorModel::WidthExceeded { line, id: s.id })
            } else {
                Ok(
                    IndexerModel {
                        vcd: spec_push(m.vcd, m.stack.last(), m.names, s),
                        ..m
                    },
                )
            },
            EventModel::InScope(name) => Ok(spec_in_scope(m, name)),
            EventModel::UpScope => if m.stack.len() > 1 {
                Ok(
                    IndexerModel {
                        stack: m.stack.drop_last(),
                        names: m.names.drop_last(),
                        ..m
                    },
                )
            } else {
                Err(ErrorModel::UnbalancedScope { line })
            },
            EventModel::DateInfo(_) => Ok(m),
            EventModel::VersionInfo(_) => Ok(m),
            EventModel::TimeScaleInfo(_) => Ok(m),
            EventModel::Useless => Ok(m),
            EventModel::EndDefinitions => Ok(IndexerModel { part: Part::Initializations, ..m }),
            EventModel::ParsingError(text) => Err(ErrorModel::Parse { line, text }),
            _ => Err(ErrorModel::UnexpectedEvent { line }),
        },
        Part::Initializations => match ev {
            EventModel::Useless => Ok(m),
            EventModel::Dumpports => Ok(m),
            EventModel::Timestamp(t) => Ok(IndexerModel { time: t as i64, ..m }),
            EventModel::Change(c) => if change_ok(m.vcd, c) {
                Ok(IndexerModel { vcd: spec_change(m.vcd, c, m.time, true), ..m })
            } else {
                Err(change_err(m.vcd, c, line))
            },
            EventModel::EndInitializations => Ok(IndexerModel { part: Part::Changes, ..m }),
            EventModel::ParsingError(text) => Err(ErrorModel::Parse { line, text }),
            _ => Err(ErrorModel::UnexpectedEvent { line }),
        },
        Part::Changes => match ev {
            EventModel::Useless => Ok(m),
            EventModel::EndInitializations => Ok(m),
            EventModel::Timestamp(t) => Ok(IndexerModel { time: t as i64, ..m }),
            EventModel::Change(c) => if change_ok(m.vcd, c) {
                Ok(IndexerModel { vcd: spec_change(m.vcd, c, m.time, false), ..m })
            } else {
                Err(change_err(m.vcd, c, line))
            },
            EventModel::ParsingError(text) => Err(ErrorModel::Parse { line, text }),
            _ => Err(ErrorModel::UnexpectedEvent { line }),
        },
    }
}

impl Indexer {
    /// Exec-level invariant: unique keys in the concrete signal index, and
    /// the model invariant.
    pub open spec fn inv(&self) -> bool {
        self.vcd.signals_by_id.wf() && indexer_wf(self@)
    }

    /// A fresh analyser.
    pub fn new() -> (r: Indexer)
        ensures
            r.inv(),
            r@ == init_indexer(),
    {
        let vcd = VCD::new();
        let mut module_stack: Vec<usize> = Vec::new();
        module_stack.push(0);
        let r = Indexer {
            vcd,
            translator: InfoTranslator { module_stack, name_stack: Vec::new() },
            part: Part::Declarations,
            current_timestamp: -1,
        };
        assert(r@.stack =~= init_indexer().stack);
        assert(r@.names =~= init_indexer().names);
        assert(r@ =~= init_indexer());
        r
    }

    /// Consume one event. Implements exactly one step of [`index_step`];
    /// on an error the analyser state is unchanged.
    pub fn feed(&mut self, e: &LineEvent) -> (r: Result<(), IndexError>)
        requires
            old(self).inv(),
        ensures
            final(self).inv(),
            match index_step(old(self)@, e@.value, e@.line_number) {
                Result::Ok(m2) => r is Ok && final(self)@ == m2,
                Result::Err(em) => (match r {
                    Result::Ok(_) => false,
                    Result::Err(ex) => ex@ == em,
                }) && final(self)@ == old(self)@,
            },
    {
        let ghost g = index_step(old(self)@, e@.value, e@.line_number);
        let line = e.line_number;
        match self.part {
            Part::Declarations => match &e.value {
                LineInfo::Signal(s) => {
                    if s.num_values > 65536 {
                        let idc = subvec(s.id.as_slice(), 0, s.id.len());
                        assert(idc@ =~= s@.id);
                        Err(IndexError::WidthExceeded { line, id: idc })
                    } else {
                        self.vcd.push(s, &self.translator);
                        assert(self@ =~= (IndexerModel {
                            vcd: spec_push(old(self)@.vcd, old(self)@.stack.last(), old(
                                self,
                            )@.names, s@),
                            ..old(self)@
                        }));
                        Ok(())
                    }
                },
                LineInfo::InScope(name) => {
                    let top: usize = self.translator.module_stack[self.translator.module_stack.len()
                        - 1];
                    let newi: usize = self.vcd.hierarchy.len();
                    self.vcd.hierarchy.push(Module { parent: top, children: ChildMap::new() });
                    let name_copy = subvec(name.as_slice(), 0, name.len());
                    assert(name_copy@ =~= name@);
                    self.vcd.hierarchy[top].children.insert(name_copy, Node::Module(newi));
                    self.translator.module_stack.push(newi);
                    let name_copy2 = subvec(name.as_slice(), 0, name.len());
                    assert(name_copy2@ =~= name@);
                    self.translator.name_stack.push(name_copy2);
                    proof {
                        let m2 = spec_in_scope(old(self)@, name@);
                        assert(self@.stack =~= m2.stack);
                        assert forall|j: int|
                            0 <= j < self@.names.len() implies self@.names[j] == m2.names[j] by {
                            if j < old(self)@.names.len() {
                                assert(self.translator.name_stack@[j]
                                    == old(self).translator.name_stack@[j]);
                            } else {
                                assert(self.translator.name_stack@[j].deep_view() =~= name@);
                            }
                        }
                        assert(self@.names =~= m2.names);
                        assert(self@.vcd.hierarchy =~= m2.vcd.hierarchy);
                        assert(self@ =~= m2);
                    }
                    Ok(())
                },
                LineInfo::UpScope => {
                    if self.translator.module_stack.len() > 1 {
                        self.translator.module_stack.pop();
                        self.translator.name_stack.pop();
                        proof {
                            let m2 = IndexerModel {
                                stack: old(self)@.stack.drop_last(),
                                names: old(self)@.names.drop_last(),
                                ..old(self)@
                            };
                            assert(self@.stack =~= m2.stack);
                            assert forall|j: int|
                                0 <= j < self@.names.len() implies self@.names[j]
                                == m2.names[j] by {
                                assert(self.translator.name_stack@[j]
                                    == old(self).translator.name_stack@[j]);
                            }
                            assert(self@.names =~= m2.names);
                            assert(self@ =~= m2);
                        }
                        Ok(())
                    } else {
                        Err(IndexError::UnbalancedScope { line })
                    }
                },
                LineInfo::DateInfo(_) => Ok(()),
                LineInfo::VersionInfo(_) => Ok(()),
                LineInfo::TimeScaleInfo(_) => Ok(()),
                LineInfo::Useless => Ok(()),
                LineInfo::EndDefinitions => {
                    self.part = Part::Initializations;
                    assert(self@ =~= (IndexerModel { part: Part::Initializations, ..old(self)@ }));
                    Ok(())
                },
                LineInfo::ParsingError(text) => {
                    let tc = subvec(text.as_slice(), 0, text.len());
                    assert(tc@ =~= text@);
                    Err(IndexError::Parse { line, text: tc })
                },
                _ => Err(IndexError::UnexpectedEvent { line }),
            },
            Part::Initializations => match &e.value {
                LineInfo::Useless => Ok(()),
                LineInfo::Dumpports => Ok(()),
                LineInfo::Timestamp(t) => {
                    self.current_timestamp = #[verifier::truncate] (*t as i64);
                    assert(self@ =~= (IndexerModel { time: *t as i64, ..old(self)@ }));
                    Ok(())
                },
                LineInfo::Change(c) => {
                    let time = self.current_timestamp;
                    match self.vcd.seed_change(c, time, line) {
                        Ok(()) => {
                            assert(self@ =~= (IndexerModel {
                                vcd: spec_change(old(self)@.vcd, c@, old(self)@.time, true),
                                ..old(self)@
                            }));
                            Ok(())
                        },
                        Err(err) => {
                            assert(self@ =~= old(self)@);
                            Err(err)
                        },
                    }
                },
                LineInfo::EndInitializations => {
                    self.part = Part::Changes;
                    assert(self@ =~= (IndexerModel { part: Part::Changes, ..old(self)@ }));
                    Ok(())
                },
                LineInfo::ParsingError(text) => {
                    let tc = subvec(text.as_slice(), 0, text.len());
                    assert(tc@ =~= text@);
                    Err(IndexError::Parse { line, text: tc })
                },
                _ => Err(IndexError::UnexpectedEvent { line }),
            },
            Part::Changes => match &e.value {
                LineInfo::Useless => Ok(()),
                LineInfo::EndInitializations => Ok(()),
                LineInfo::Timestamp(t) => {
                    self.current_timestamp = #[verifier::truncate] (*t as i64);
                    assert(self@ =~= (IndexerModel { time: *t as i64, ..old(self)@ }));
                    Ok(())
                },
                LineInfo::Change(c) => {
                    let time = self.current_timestamp;
                    match self.vcd.add_change(c, time, line) {
                        Ok(()) => {
                            assert(self@ =~= (IndexerModel {
                                vcd: spec_change(old(self)@.vcd, c@, old(self)@.time, false),
                                ..old(self)@
                            }));
                            Ok(())
                        },
                        Err(err) => {
                            assert(self@ =~= old(self)@);
                            Err(err)
                        },
                    }
                },
                LineInfo::ParsingError(text) => {
                    let tc = subvec(text.as_slice(), 0, text.len());
                    assert(tc@ =~= text@);
                    Err(IndexError::Parse { line, text: tc })
                },
                _ => Err(IndexError::UnexpectedEvent { line }),
            },
        }
    }

    /// Hand the finished aggregate to the caller.
    pub fn into_vcd(self) -> (r: VCD)
        ensures
            r@ == self@.vcd,
            self.inv() ==> r.inv(),
    {
        self.vcd
    }
}


/// Run the analyser over a whole event sequence, stopping at the first
/// error.
pub open spec fn run_steps(m: IndexerModel, evs: Seq<LineEventModel>) -> Result<
    IndexerModel,
    ErrorModel,
>
    decreases evs.len(),
{
    if evs.len() == 0 {
        Ok(m)
    } else {
        match index_step(m, evs[0].value, evs[0].line_number) {
            Ok(m2) => run_steps(m2, evs.drop_first()),
            Err(e) => Err(e),
        }
    }
}

/// The sum of the declared widths of all `Signal` events in a sequence.
pub open spec fn total_declared_bits(evs: Seq<LineEventModel>) -> int
    decreases evs.len(),
{
    if evs.len() == 0 {
        0
    } else {
        (match evs[0].value {
            EventModel::Signal(s) => s.num_values,
            _ => 0,
        }) + total_declared_bits(evs.drop_first())
    }
}

/// The identifiers declared by the `Signal` events of a sequence.
pub open spec fn declared_ids(evs: Seq<LineEventModel>) -> Set<Seq<u8>>
    decreases evs.len(),
{
    if evs.len() == 0 {
        Set::empty()
    } else {
        (match evs[0].value {
            EventModel::Signal(s) => declared_ids(evs.drop_first()).insert(s.id),
            _ => declared_ids(evs.drop_first()),
        })
    }
}

/// One tracked bit per declared width unit: a successful run ends with
/// exactly as many bit records as the sum of all declared `$var` widths.
pub proof fn lemma_total_bits(m: IndexerModel, evs: Seq<LineEventModel>)
    requires
        run_steps(m, evs) is Ok,
    ensures
        run_steps(m, evs)->Ok_0.vcd.signals.len() == m.vcd.signals.len() + total_declared_bits(
            evs,
        ),
    decreases evs.len(),
{
    if evs.len() > 0 {
        let step = index_step(m, evs[0].value, evs[0].line_number);
        let m2 = step->Ok_0;
        lemma_total_bits(m2, evs.drop_first());
        match evs[0].value {
            EventModel::Signal(s) => {
                assert(m2.vcd.signals.len() == m.vcd.signals.len() + s.num_values);
            },
            _ => {
                assert(m2.vcd.signals.len() == m.vcd.signals.len());
            },
        }
    }
}

/// The signal index only ever holds identifiers that some declaration of
/// the run (or the starting state) introduced.
pub proof fn lemma_index_only_declared(m: IndexerModel, evs: Seq<LineEventModel>)
    requires
        run_steps(m, evs) is Ok,
    ensures
        forall|id: Seq<u8>|
            #[trigger] run_steps(m, evs)->Ok_0.vcd.index.contains_key(id) ==> m.vcd.index.contains_key(id)
                || declared_ids(evs).contains(id),
    decreases evs.len(),
{
    if evs.len() > 0 {
        let step = index_step(m, evs[0].value, evs[0].line_number);
        let m2 = step->Ok_0;
        lemma_index_only_declared(m2, evs.drop_first());
    }
}

/// In a successful run, every change event references an identifier that
/// a declaration before it (or the starting state) introduced; otherwise
/// the run would have stopped with an error at that event.
pub proof fn lemma_changes_reference_declared(m: IndexerModel, evs: Seq<LineEventModel>)
    requires
        run_steps(m, evs) is Ok,
    ensures
        forall|k: int|
            0 <= k < evs.len() && evs[k].value is Change ==> m.vcd.index.contains_key(
                (#[trigger] evs[k].value)->Change_0.signal_id,
            ) || declared_ids(evs.take(k)).contains(evs[k].value->Change_0.signal_id),
    decreases evs.len(),
{
    if evs.len() > 0 {
        let step = index_step(m, evs[0].value, evs[0].line_number);
        let m2 = step->Ok_0;
        lemma_changes_reference_declared(m2, evs.drop_first());
        assert forall|k: int|
            0 <= k < evs.len() && evs[k].value is Change implies m.vcd.index.contains_key(
                (#[trigger] evs[k].value)->Change_0.signal_id,
            ) || declared_ids(evs.take(k)).contains(evs[k].value->Change_0.signal_id) by {
            let id = evs[k].value->Change_0.signal_id;
            if k == 0 {
                assert(m.vcd.index.contains_key(id));
            } else {
                assert(evs.drop_first()[k - 1] == evs[k]);
                assert(evs.take(k)[0] == evs[0]);
                assert(evs.take(k).drop_first() =~= evs.drop_first().take(k - 1));
                let prior = declared_ids(evs.drop_first().take(k - 1));
                if m2.vcd.index.contains_key(id) || prior.contains(id) {
                    match evs[0].value {
                        EventModel::Signal(sg) => {
                            assert(declared_ids(evs.take(k)) == prior.insert(sg.id));
                            if m2.vcd.index.contains_key(id) && !m.vcd.index.contains_key(id) {
                                assert(m2.vcd.index == m.vcd.index.insert(
                                    sg.id,
                                    m.vcd.signals.len() as usize,
                                ));
                                assert(id == sg.id);
                            }
                        },
                        _ => {
                            assert(declared_ids(evs.take(k)) == prior);
                            assert(m2.vcd.index == m.vcd.index);
                        },
                    }
                }
            }
        }
    }
}

/// A change is accepted only for a declared identifier: in the sample
/// phases, a change whose identifier is not in the signal index stops the
/// run with exactly the unknown-identifier error.
pub proof fn lemma_change_requires_declared_id(
    m: IndexerModel,
    c: crate::lexer::ChangeModel,
    line: int,
)
    ensures
        index_step(m, EventModel::Change(c), line) is Ok ==> m.vcd.index.contains_key(
            c.signal_id,
        ),
        (m.part == Part::Initializations || m.part == Part::Changes)
            && !m.vcd.index.contains_key(c.signal_id) ==> index_step(
            m,
            EventModel::Change(c),
            line,
        ) == Result::<IndexerModel, ErrorModel>::Err(
            ErrorModel::UnknownId { line, id: c.signal_id },
        ),
{
}

/// The module reached from `i` after `n` steps along parent links.
pub open spec fn ancestor(h: Seq<ModuleModel>, i: int, n: nat) -> int
    decreases n,
{
    if n == 0 {
        i
    } else {
        ancestor(h, h[i].parent, (n - 1) as nat)
    }
}

proof fn lemma_root_fixed(h: Seq<ModuleModel>, n: nat)
    requires
        hierarchy_wf(h),
    ensures
        ancestor(h, 0, n) == 0,
    decreases n,
{
    if n > 0 {
        lemma_root_fixed(h, (n - 1) as nat);
    }
}

proof fn lemma_ancestor_compose(h: Seq<ModuleModel>, i: int, a: nat, b: nat)
    ensures
        ancestor(h, i, a + b) == ancestor(h, ancestor(h, i, a), b),
    decreases a,
{
    if a > 0 {
        lemma_ancestor_compose(h, h[i].parent, (a - 1) as nat, b);
        assert(ancestor(h, i, a + b) == ancestor(h, h[i].parent, (a + b - 1) as nat));
    }
}

/// The hierarchy is a tree: from any module, following parent links
/// reaches the root in at most as many steps as the module's index —
/// finitely many, with no cycles.
pub proof fn lemma_hierarchy_reaches_root(h: Seq<ModuleModel>, i: int)
    requires
        hierarchy_wf(h),
        0 <= i < h.len(),
    ensures
        ancestor(h, i, i as nat) == 0,
    decreases i,
{
    if i == 0 {
        lemma_root_fixed(h, 0);
    } else {
        let p = h[i].parent;
        lemma_hierarchy_reaches_root(h, p);
        lemma_ancestor_compose(h, p, p as nat, (i - 1 - p) as nat);
        lemma_root_fixed(h, (i - 1 - p) as nat);
        assert(ancestor(h, i, i as nat) == ancestor(h, p, (i - 1) as nat));
    }
}

/// Header-information events: tool metadata the analyser only reports.
pub open spec fn is_header_info(ev: EventModel) -> bool {
    ev is DateInfo || ev is VersionInfo || ev is TimeScaleInfo
}

/// The event sequence with all header-information events removed.
pub open spec fn strip_headers(evs: Seq<LineEventModel>) -> Seq<LineEventModel>
    decreases evs.len(),
{
    if evs.len() == 0 {
        Seq::empty()
    } else if is_header_info(evs[0].value) {
        strip_headers(evs.drop_first())
    } else {
        seq![evs[0]] + strip_headers(evs.drop_first())
    }
}

/// A successful run is unchanged by removing the header-information
/// events: they are lawful only in the declaration section, where they do
/// not touch the analyser state.
pub proof fn lemma_strip_headers_run(m: IndexerModel, evs: Seq<LineEventModel>)
    requires
        run_steps(m, evs) is Ok,
    ensures
        run_steps(m, strip_headers(evs)) == run_steps(m, evs),
    decreases evs.len(),
{
    if evs.len() > 0 {
        let step = index_step(m, evs[0].value, evs[0].line_number);
        let m2 = step->Ok_0;
        lemma_strip_headers_run(m2, evs.drop_first());
        if is_header_info(evs[0].value) {
            assert(m2 == m);
        } else {
            let st = seq![evs[0]] + strip_headers(evs.drop_first());
            assert(st[0] == evs[0]);
            assert(st.drop_first() =~= strip_headers(evs.drop_first()));
        }
    }
}

/// Re-ordering of the `$date`, `$version` and `$timescale` events is not
/// observable in the result: two event sequences that agree after the
/// header-information events are removed, and that both run to completion,
/// produce the same analyser state.
pub proof fn lemma_header_scramble(
    m: IndexerModel,
    evs1: Seq<LineEventModel>,
    evs2: Seq<LineEventModel>,
)
    requires
        run_steps(m, evs1) is Ok,
        run_steps(m, evs2) is Ok,
        strip_headers(evs1) == strip_headers(evs2),
    ensures
        run_steps(m, evs1) == run_steps(m, evs2),
{
    lemma_strip_headers_run(m, evs1);
    lemma_strip_headers_run(m, evs2);
}

/// Feed a whole event sequence to a fresh analyser and hand back the
/// populated aggregate, or the first error.
pub fn translate_infos(events: &Vec<LineEvent>) -> (r: Result<VCD, IndexError>)
    ensures
        ({
            let evs = events@.map_values(|e: LineEvent| e@);
            match run_steps(init_indexer(), evs) {
                Result::Ok(m) => (match r {
                    Result::Ok(v) => v@ == m.vcd && v.inv(),
                    Result::Err(_) => false,
                }),
                Result::Err(em) => (match r {
                    Result::Ok(_) => false,
                    Result::Err(ex) => ex@ == em,
                }),
            }
        }),
{
    let ghost evs = events@.map_values(|e: LineEvent| e@);
    let mut ind = Indexer::new();
    let n: usize = events.len();
    let mut i: usize = 0;
    proof {
        assert(evs.skip(0) =~= evs);
    }
    while i < n
        invariant
            0 <= i <= n == events@.len(),
            evs == events@.map_values(|e: LineEvent| e@),
            ind.inv(),
            run_steps(init_indexer(), evs) == run_steps(ind@, evs.skip(i as int)),
        decreases n - i,
    {
        let ghost pre = ind@;
        match ind.feed(&events[i]) {
            Ok(()) => {},
            Err(e) => {
                proof {
                    assert(evs.skip(i as int)[0] == events@[i as int]@);
                }
                return Err(e);
            },
        }
        proof {
            assert(evs.skip(i as int)[0] == events@[i as int]@);
            assert(evs.skip(i as int).drop_first() =~= evs.skip(i + 1));
        }
        i = i + 1;
    }
    proof {
        assert(evs.skip(n as int) =~= Seq::<LineEventModel>::empty());
    }
    Ok(ind.into_vcd())
}


/// Width independence, per bit: applying a vector change to the aggregate
/// folds, into each addressed bit, exactly the one sample that a width-one
/// declaration of that bit would have received — the surrounding grouping
/// adds nothing.
pub proof fn lemma_change_acts_bitwise(
    v: VcdModel,
    c: crate::lexer::ChangeModel,
    time: i64,
    i: int,
)
    requires
        change_ok(v, c),
        v.index[c.signal_id] <= i < v.index[c.signal_id] + c.values.len(),
        0 <= i < v.signals.len(),
    ensures
        spec_change(v, c, time, false).signals[i].states == spec_add_change(
            v.signals[i].states,
            State {
                value: spec_value_of_byte(c.values[i - v.index[c.signal_id]]),
                time,
            },
        ),
{
}

} // verus!
