//! What is generated: the arms of the match, and the bounds that the
//! implementation needs.

use crate::behavior::Behavior;
use crate::meta::{MetaPath, PathModel};
use crate::text::str_eq;
use vstd::prelude::*;

verus! {

/// An argument of a formatted write.
#[derive(Clone, Debug, PartialEq, Eq)]
pub enum Argument {
    /// A fragment of code, as text.
    Code(String),
    /// A path, most often the name of a field.
    Path(MetaPath),
}

/// The expression that an arm writes.
#[derive(Clone, Debug, PartialEq, Eq)]
pub enum Rendering {
    /// The name of the type or variant, as a string literal.
    Name(String),
    /// The field under this binding, rendered by its own implementation of
    /// the behaviour.
    Forward(String),
    /// A formatted write of this format string and these arguments.
    Write { format: String, args: Vec<Argument> },
}

/// How a pattern binds the fields.
#[derive(Clone, Debug, PartialEq, Eq)]
pub enum Binding {
    /// No fields, no brackets.
    Unit,
    /// Fields by position, each under its positional name.
    Tuple(Vec<String>),
    /// Fields by name.
    Named(Vec<String>),
}

/// The pattern of an arm.
#[derive(Clone, Debug, PartialEq, Eq)]
pub enum Pattern {
    /// The pattern that matches everything.
    Any,
    /// The declared type or, with a variant's name, one of its variants.
    Item { variant: Option<String>, binding: Binding },
}

/// The body of an arm.
#[derive(Clone, Debug, PartialEq, Eq)]
pub enum ArmBody {
    /// Writes `value` into `outer`, the format of the enum's own directive;
    /// into `{}` where there is none.
    Write { outer: Option<String>, value: Rendering },
    /// Writes nothing and succeeds.
    Nothing,
}

/// One arm of the generated match.
#[derive(Clone, Debug, PartialEq, Eq)]
pub struct MatchArm {
    pub pattern: Pattern,
    pub body: ArmBody,
}

/// An argument as plain text.
pub enum ArgumentModel {
    Code(Seq<char>),
    Path(PathModel),
}

/// What an arm writes, as plain text.
pub enum RenderingModel {
    Name(Seq<char>),
    Forward(Seq<char>),
    Write { format: Seq<char>, args: Seq<ArgumentModel> },
}

/// A binding as plain text.
pub enum BindingModel {
    Unit,
    Tuple(Seq<Seq<char>>),
    Named(Seq<Seq<char>>),
}

/// A pattern as plain text.
pub enum PatternModel {
    Any,
    Item { variant: Option<Seq<char>>, binding: BindingModel },
}

/// The body of an arm as plain text.
pub enum ArmBodyModel {
    Write { outer: Option<Seq<char>>, value: RenderingModel },
    Nothing,
}

/// An arm as plain text.
pub struct MatchArmModel {
    pub pattern: PatternModel,
    pub body: ArmBodyModel,
}

impl DeepView for Argument {
    type V = ArgumentModel;

    open spec fn deep_view(&self) -> ArgumentModel {
        match *self {
            Argument::Code(s) => ArgumentModel::Code(s@),
            Argument::Path(p) => ArgumentModel::Path(p.deep_view()),
        }
    }
}

impl DeepView for Rendering {
    type V = RenderingModel;

    open spec fn deep_view(&self) -> RenderingModel {
        match *self {
            Rendering::Name(s) => RenderingModel::Name(s@),
            Rendering::Forward(s) => RenderingModel::Forward(s@),
            Rendering::Write { format, args } => RenderingModel::Write {
                format: format@,
                args: args.deep_view(),
            },
        }
    }
}

impl DeepView for Binding {
    type V = BindingModel;

    open spec fn deep_view(&self) -> BindingModel {
        match *self {
            Binding::Unit => BindingModel::Unit,
            Binding::Tuple(v) => BindingModel::Tuple(v.deep_view()),
            Binding::Named(v) => BindingModel::Named(v.deep_view()),
        }
    }
}

impl DeepView for Pattern {
    type V = PatternModel;

    open spec fn deep_view(&self) -> PatternModel {
        match *self {
            Pattern::Any => PatternModel::Any,
            Pattern::Item { variant, binding } => PatternModel::Item {
                variant: variant.deep_view(),
                binding: binding.deep_view(),
            },
        }
    }
}

impl DeepView for ArmBody {
    type V = ArmBodyModel;

    open spec fn deep_view(&self) -> ArmBodyModel {
        match *self {
            ArmBody::Write { outer, value } => ArmBodyModel::Write {
                outer: outer.deep_view(),
                value: value.deep_view(),
            },
            ArmBody::Nothing => ArmBodyModel::Nothing,
        }
    }
}

impl DeepView for MatchArm {
    type V = MatchArmModel;

    open spec fn deep_view(&self) -> MatchArmModel {
        MatchArmModel { pattern: self.pattern.deep_view(), body: self.body.deep_view() }
    }
}

/// The behaviours that one declared type must implement.
#[derive(Clone, Debug, PartialEq, Eq)]
pub struct Bound {
    /// The type, as written in the declaration.
    pub ty: String,
    pub behaviors: Vec<Behavior>,
}

/// The bounds that the implementation needs: a relation between declared
/// types and behaviours, kept by type.
#[derive(Clone, Debug, PartialEq, Eq)]
pub struct BoundSet {
    pub bounds: Vec<Bound>,
}

/// The place of the first entry for the type `ty` at or after `i`; the
/// number of entries where none follows.
pub open spec fn entry_from(bounds: Seq<BoundModel>, ty: Seq<char>, i: int) -> int
    decreases bounds.len() - i,
{
    if 0 <= i < bounds.len() && bounds[i].ty != ty {
        entry_from(bounds, ty, i + 1)
    } else {
        i
    }
}

/// The bounds with one more, in their order: a behaviour that its type has
/// already changes nothing, a new behaviour goes behind those of its type,
/// and a new type goes behind the other types.
pub open spec fn spec_insert(bounds: Seq<BoundModel>, ty: Seq<char>, b: Behavior) -> Seq<
    BoundModel,
> {
    let i = entry_from(bounds, ty, 0);
    if i >= bounds.len() {
        bounds.push(BoundModel { ty, behaviors: seq![b] })
    } else if bounds[i].behaviors.contains(b) {
        bounds
    } else {
        bounds.update(i, BoundModel { ty, behaviors: bounds[i].behaviors.push(b) })
    }
}

/// The bounds with the first `n` of the behaviours added for the type `ty`,
/// one after the other.
pub open spec fn spec_insert_all(
    bounds: Seq<BoundModel>,
    ty: Seq<char>,
    behaviors: Seq<Behavior>,
    n: int,
) -> Seq<BoundModel>
    decreases n,
{
    if n <= 0 {
        bounds
    } else {
        spec_insert(spec_insert_all(bounds, ty, behaviors, n - 1), ty, behaviors[n - 1])
    }
}

/// The bounds with those of the first `n` entries of `other` added, entry
/// by entry and behaviour by behaviour.
pub open spec fn spec_merge_upto(bounds: Seq<BoundModel>, other: Seq<BoundModel>, n: int) -> Seq<
    BoundModel,
>
    decreases n,
{
    if n <= 0 {
        bounds
    } else {
        spec_insert_all(
            spec_merge_upto(bounds, other, n - 1),
            other[n - 1].ty,
            other[n - 1].behaviors,
            other[n - 1].behaviors.len() as int,
        )
    }
}

/// The bounds with those of `other` added, in the order of `other`.
pub open spec fn spec_merge(bounds: Seq<BoundModel>, other: Seq<BoundModel>) -> Seq<BoundModel> {
    spec_merge_upto(bounds, other, other.len() as int)
}

/// Past entries of other types, the first entry of the type is the same.
proof fn lemma_entry_run(bounds: Seq<BoundModel>, ty: Seq<char>, i: int, j: int)
    requires
        0 <= i <= j <= bounds.len(),
        forall|k: int| i <= k < j ==> (#[trigger] bounds[k]).ty != ty,
    ensures
        entry_from(bounds, ty, i) == entry_from(bounds, ty, j),
    decreases j - i,
{
    if i < j {
        lemma_entry_run(bounds, ty, i + 1, j);
    }
}

impl DeepView for BoundSet {
    type V = Seq<BoundModel>;

    open spec fn deep_view(&self) -> Seq<BoundModel> {
        self.bounds.deep_view()
    }
}

/// Whether `v` holds `b`.
fn has_behavior(v: &Vec<Behavior>, b: Behavior) -> (r: bool)
    ensures
        r == v@.contains(b),
{
    let mut i: usize = 0;
    while i < v.len()
        invariant
            i <= v.len(),
            forall|k: int| 0 <= k < i ==> v@[k] != b,
        decreases v.len() - i,
    {
        if v[i] == b {
            return true;
        }
        i += 1;
    }
    false
}

impl BoundSet {
    /// The behaviour at place `j` of the entry at place `i` is `b`, and the
    /// entry is that of the type `ty`.
    pub open spec fn at(&self, i: int, j: int, ty: Seq<char>, b: Behavior) -> bool {
        &&& 0 <= i < self.bounds@.len()
        &&& 0 <= j < self.bounds@[i].behaviors@.len()
        &&& self.bounds@[i].ty@ == ty
        &&& self.bounds@[i].behaviors@[j] == b
    }

    /// The type `ty` must implement `b`.
    pub open spec fn holds(&self, ty: Seq<char>, b: Behavior) -> bool {
        exists|i: int, j: int| self.at(i, j, ty, b)
    }

    /// The bounds as a relation.
    pub open spec fn pairs(&self) -> Set<(Seq<char>, Behavior)> {
        Set::new(|p: (Seq<char>, Behavior)| self.holds(p.0, p.1))
    }

    /// Each type has one entry, each entry at least one behaviour, and none
    /// twice.
    pub open spec fn wf(&self) -> bool {
        &&& forall|i: int, j: int|
            0 <= i < j < self.bounds@.len() ==> (#[trigger] self.bounds@[i]).ty@
                != (#[trigger] self.bounds@[j]).ty@
        &&& forall|i: int|
            0 <= i < self.bounds@.len() ==> (#[trigger] self.bounds@[i]).behaviors@.len() > 0
        &&& forall|i: int|
            0 <= i < self.bounds@.len() ==> (#[trigger] self.bounds@[i]).behaviors@.no_duplicates()
    }

    /// No bounds.
    pub fn new() -> (r: BoundSet)
        ensures
            r.wf(),
            r.pairs() == Set::<(Seq<char>, Behavior)>::empty(),
            r.deep_view() == Seq::<BoundModel>::empty(),
    {
        let r = BoundSet { bounds: Vec::new() };
        assert(r.pairs() =~= Set::<(Seq<char>, Behavior)>::empty());
        assert(r.deep_view() =~= Seq::<BoundModel>::empty());
        r
    }

    /// There are no bounds exactly where there are no entries.
    pub proof fn lemma_empty(&self)
        requires
            self.wf(),
        ensures
            self.bounds@.len() == 0 <==> self.pairs() == Set::<(Seq<char>, Behavior)>::empty(),
    {
        if self.bounds@.len() == 0 {
            assert(self.pairs() =~= Set::<(Seq<char>, Behavior)>::empty());
        } else {
            let e = self.bounds@[0];
            assert(self.at(0, 0, e.ty@, e.behaviors@[0]));
            assert(self.pairs().contains((e.ty@, e.behaviors@[0])));
        }
    }

    /// Whether there are no bounds.
    pub fn is_empty(&self) -> (r: bool)
        requires
            self.wf(),
        ensures
            r == (self.pairs() == Set::<(Seq<char>, Behavior)>::empty()),
    {
        proof {
            self.lemma_empty();
        }
        self.bounds.len() == 0
    }

    /// The place of the first entry of the type `ty`.
    fn position(&self, ty: &str) -> (r: Option<usize>)
        ensures
            match r {
                Some(i) => i < self.bounds@.len() && self.bounds@[i as int].ty@ == ty@,
                None => forall|i: int|
                    0 <= i < self.bounds@.len() ==> (#[trigger] self.bounds@[i]).ty@ != ty@,
            },
            entry_from(self.deep_view(), ty@, 0) == match r {
                Some(i) => i as int,
                None => self.bounds@.len() as int,
            },
    {
        let mut i: usize = 0;
        while i < self.bounds.len()
            invariant
                i <= self.bounds.len(),
                forall|k: int| 0 <= k < i ==> (#[trigger] self.bounds@[k]).ty@ != ty@,
            decreases self.bounds.len() - i,
        {
            if str_eq(self.bounds[i].ty.as_str(), ty) {
                proof {
                    assert forall|k: int| 0 <= k < i implies (#[trigger] self.deep_view()[k]).ty
                        != ty@ by {
                        assert(self.deep_view()[k] == self.bounds@[k].deep_view());
                    }
                    assert(self.deep_view()[i as int] == self.bounds@[i as int].deep_view());
                    lemma_entry_run(self.deep_view(), ty@, 0, i as int);
                }
                return Some(i);
            }
            i += 1;
        }
        proof {
            assert forall|k: int| 0 <= k < i implies (#[trigger] self.deep_view()[k]).ty != ty@ by {
                assert(self.deep_view()[k] == self.bounds@[k].deep_view());
            }
            lemma_entry_run(self.deep_view(), ty@, 0, i as int);
        }
        None
    }

    /// Adds the bound that `ty` implements `b`.
    pub fn insert(&mut self, ty: &str, b: Behavior)
        requires
            old(self).wf(),
        ensures
            final(self).wf(),
            final(self).pairs() == old(self).pairs().insert((ty@, b)),
            final(self).deep_view() == spec_insert(old(self).deep_view(), ty@, b),
    {
        let ghost before = *self;
        match self.position(ty) {
            Some(i) => {
                if has_behavior(&self.bounds[i].behaviors, b) {
                    proof {
                        let j = choose|j: int|
                            0 <= j < before.bounds@[i as int].behaviors@.len()
                                && before.bounds@[i as int].behaviors@[j] == b;
                        assert(before.at(i as int, j, ty@, b));
                        assert(self.pairs() =~= before.pairs().insert((ty@, b)));
                        assert(before.deep_view()[i as int]
                            == before.bounds@[i as int].deep_view());
                    }
                } else {
                    let mut entry = self.bounds.remove(i);
                    let ghost size = entry.behaviors@.len() as int;
                    entry.behaviors.push(b);
                    self.bounds.insert(i, entry);
                    proof {
                        assert(self.bounds@ =~= before.bounds@.update(i as int, entry));
                        assert(self.at(i as int, size, ty@, b));
                        assert forall|p: (Seq<char>, Behavior)|
                            self.pairs().contains(p) <==> before.pairs().insert((ty@, b)).contains(
                                p,
                            ) by {
                            if self.holds(p.0, p.1) {
                                let (x, y) = choose|x: int, y: int| self.at(x, y, p.0, p.1);
                                if x != i || y < size {
                                    assert(before.at(x, y, p.0, p.1));
                                }
                            }
                            if before.holds(p.0, p.1) {
                                let (x, y) = choose|x: int, y: int| before.at(x, y, p.0, p.1);
                                assert(self.at(x, y, p.0, p.1));
                            }
                        }
                        assert(self.pairs() =~= before.pairs().insert((ty@, b)));
                        assert(before.deep_view()[i as int]
                            == before.bounds@[i as int].deep_view());
                        assert(self.deep_view() =~= before.deep_view().update(
                            i as int,
                            entry.deep_view(),
                        ));
                    }
                }
            },
            None => {
                let mut behaviors: Vec<Behavior> = Vec::new();
                behaviors.push(b);
                self.bounds.push(Bound { ty: String::from_str(ty), behaviors });
                proof {
                    let n = before.bounds@.len() as int;
                    assert(self.at(n, 0, ty@, b));
                    assert forall|p: (Seq<char>, Behavior)|
                        self.pairs().contains(p) <==> before.pairs().insert((ty@, b)).contains(
                            p,
                        ) by {
                        if self.holds(p.0, p.1) {
                            let (x, y) = choose|x: int, y: int| self.at(x, y, p.0, p.1);
                            if x < n {
                                assert(before.at(x, y, p.0, p.1));
                            }
                        }
                        if before.holds(p.0, p.1) {
                            let (x, y) = choose|x: int, y: int| before.at(x, y, p.0, p.1);
                            assert(self.at(x, y, p.0, p.1));
                        }
                    }
                    assert(self.pairs() =~= before.pairs().insert((ty@, b)));
                    assert(self.deep_view() =~= before.deep_view().push(
                        BoundModel { ty: ty@, behaviors: seq![b] },
                    ));
                }
            },
        }
    }

    /// The bounds of `other` that stand before the behaviour at place `m` of
    /// its entry at place `n`.
    pub open spec fn pairs_before(&self, n: int, m: int) -> Set<(Seq<char>, Behavior)> {
        Set::new(
            |p: (Seq<char>, Behavior)|
                exists|i: int, j: int| self.at(i, j, p.0, p.1) && (i < n || (i == n && j < m)),
        )
    }

    /// Adds every bound of `other`.
    pub fn merge(&mut self, other: &BoundSet)
        requires
            old(self).wf(),
        ensures
            final(self).wf(),
            final(self).pairs() == old(self).pairs().union(other.pairs()),
            final(self).deep_view() == spec_merge(old(self).deep_view(), other.deep_view()),
    {
        let ghost before = *self;
        let mut n: usize = 0;
        proof {
            assert(other.pairs_before(0, 0) =~= Set::<(Seq<char>, Behavior)>::empty());
            assert(self.pairs() =~= before.pairs().union(other.pairs_before(0, 0)));
        }
        while n < other.bounds.len()
            invariant
                n <= other.bounds.len(),
                self.wf(),
                self.pairs() == before.pairs().union(other.pairs_before(n as int, 0)),
                self.deep_view() == spec_merge_upto(
                    before.deep_view(),
                    other.deep_view(),
                    n as int,
                ),
            decreases other.bounds.len() - n,
        {
            let entry = &other.bounds[n];
            let mut m: usize = 0;
            while m < entry.behaviors.len()
                invariant
                    n < other.bounds.len(),
                    *entry == other.bounds@[n as int],
                    m <= entry.behaviors.len(),
                    self.wf(),
                    self.pairs() == before.pairs().union(other.pairs_before(n as int, m as int)),
                    self.deep_view() == spec_insert_all(
                        spec_merge_upto(before.deep_view(), other.deep_view(), n as int),
                        entry.ty@,
                        entry.behaviors@,
                        m as int,
                    ),
                decreases entry.behaviors.len() - m,
            {
                self.insert(entry.ty.as_str(), entry.behaviors[m]);
                proof {
                    let added = (entry.ty@, entry.behaviors@[m as int]);
                    assert(other.at(n as int, m as int, added.0, added.1));
                    assert(other.pairs_before(n as int, m + 1) =~= other.pairs_before(
                        n as int,
                        m as int,
                    ).insert(added));
                    assert(self.pairs() =~= before.pairs().union(
                        other.pairs_before(n as int, m + 1),
                    ));
                }
                m += 1;
            }
            proof {
                assert(other.pairs_before(n + 1, 0) =~= other.pairs_before(n as int, m as int));
                assert(other.deep_view()[n as int] == entry.deep_view());
            }
            n += 1;
        }
        proof {
            assert(other.pairs_before(n as int, 0) =~= other.pairs());
        }
    }
}

/// One predicate of the where clause of the implementation.
#[derive(Clone, Debug, PartialEq, Eq)]
pub enum Predicate {
    /// A predicate that the declaration has already, as written there.
    Declared(String),
    /// A bound that the implementation needs.
    Needed(Bound),
}

/// A bound as plain text.
pub struct BoundModel {
    pub ty: Seq<char>,
    pub behaviors: Seq<Behavior>,
}

impl DeepView for Bound {
    type V = BoundModel;

    open spec fn deep_view(&self) -> BoundModel {
        BoundModel { ty: self.ty@, behaviors: self.behaviors@ }
    }
}

/// A predicate as plain text.
pub enum PredicateModel {
    Declared(Seq<char>),
    Needed(BoundModel),
}

impl DeepView for Predicate {
    type V = PredicateModel;

    open spec fn deep_view(&self) -> PredicateModel {
        match *self {
            Predicate::Declared(s) => PredicateModel::Declared(s@),
            Predicate::Needed(b) => PredicateModel::Needed(b.deep_view()),
        }
    }
}

/// The where clause of the implementation: the predicates of the
/// declaration, in their order, and behind them the bounds that the
/// implementation needs.
pub open spec fn spec_where_clause(declared: Seq<Seq<char>>, bounds: Seq<BoundModel>) -> Seq<
    PredicateModel,
> {
    Seq::new(
        declared.len() + bounds.len(),
        |k: int|
            if k < declared.len() {
                PredicateModel::Declared(declared[k])
            } else {
                PredicateModel::Needed(bounds[k - declared.len()])
            },
    )
}

/// The where clause of the implementation: the predicates of the
/// declaration are kept, and the bounds are added behind them.
pub fn where_clause(declared: &Vec<String>, bounds: &BoundSet) -> (r: Vec<Predicate>)
    ensures
        r.deep_view() == spec_where_clause(declared.deep_view(), bounds.bounds.deep_view()),
{
    let mut out: Vec<Predicate> = Vec::new();
    let mut k: usize = 0;
    while k < declared.len()
        invariant
            k <= declared.len(),
            out.len() == k,
            forall|j: int|
                0 <= j < k ==> (#[trigger] out[j]).deep_view() == PredicateModel::Declared(
                    declared[j]@,
                ),
        decreases declared.len() - k,
    {
        out.push(Predicate::Declared(declared[k].clone()));
        k += 1;
    }
    let mut n: usize = 0;
    while n < bounds.bounds.len()
        invariant
            n <= bounds.bounds.len(),
            out.len() == declared.len() + n,
            forall|j: int|
                0 <= j < declared.len() ==> (#[trigger] out[j]).deep_view()
                    == PredicateModel::Declared(declared[j]@),
            forall|j: int|
                0 <= j < n ==> (#[trigger] out[declared.len() + j]).deep_view()
                    == PredicateModel::Needed(bounds.bounds[j].deep_view()),
        decreases bounds.bounds.len() - n,
    {
        let entry = &bounds.bounds[n];
        let mut behaviors: Vec<Behavior> = Vec::new();
        let mut m: usize = 0;
        while m < entry.behaviors.len()
            invariant
                m <= entry.behaviors.len(),
                behaviors@ == entry.behaviors@.subrange(0, m as int),
            decreases entry.behaviors.len() - m,
        {
            behaviors.push(entry.behaviors[m]);
            m += 1;
        }
        proof {
            assert(behaviors@ =~= entry.behaviors@);
        }
        out.push(Predicate::Needed(Bound { ty: entry.ty.clone(), behaviors }));
        n += 1;
    }
    proof {
        let want = spec_where_clause(declared.deep_view(), bounds.bounds.deep_view());
        assert(out.deep_view().len() == want.len());
        assert forall|k: int| 0 <= k < want.len() implies out.deep_view()[k] == want[k] by {
            if k >= declared.len() {
                let j = k - declared.len();
                assert(out[declared.len() + j].deep_view() == want[k]);
            } else {
                assert(out[k].deep_view() == want[k]);
            }
        }
        assert(out.deep_view() =~= want);
    }
    out
}

/// The generated implementation of one behaviour for one declared type.
#[derive(Clone, Debug, PartialEq, Eq)]
pub struct Implementation {
    /// The name of the type.
    pub name: String,
    /// The behaviour that is implemented.
    pub behavior: Behavior,
    /// The arms of the match on `self`, in order.
    pub arms: Vec<MatchArm>,
    /// What the implementation asks of the types of the fields.
    pub bounds: BoundSet,
    /// The where clause of the implementation: that of the declaration,
    /// with the bounds behind it.
    pub where_clause: Vec<Predicate>,
}

} // verus!
