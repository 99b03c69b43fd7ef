//! The bounds that the generated implementation needs on the types of the
//! fields that it formats.

use crate::behavior::Behavior;
use crate::declaration::{FieldType, FieldTypeModel, Fields, FieldsModel};
use crate::generated::{spec_insert, Argument, ArgumentModel, BoundModel, BoundSet};
use crate::placeholder::Slot;
use crate::syntax::{mod_path, parse_mod_path};
use crate::text::{contains_str, str_eq};
use vstd::prelude::*;

verus! {

/// Whether the declared type starts with one of the type parameters.
pub open spec fn spec_has_type_param(type_params: Seq<Seq<char>>, ty: FieldTypeModel) -> bool {
    ty.head matches Some(h) && type_params.contains(h)
}

/// The last field before place `n` that is bound under the name `id` and
/// whose declared type starts with a type parameter.
pub open spec fn spec_participant(
    type_params: Seq<Seq<char>>,
    fields: FieldsModel,
    id: Seq<char>,
    n: int,
) -> Option<int>
    decreases n,
{
    if n <= 0 {
        None
    } else if fields.name(n - 1) == id && spec_has_type_param(
        type_params,
        fields.ty(n - 1),
    ) {
        Some(n - 1)
    } else {
        spec_participant(type_params, fields, id, n - 1)
    }
}

/// The bound that a placeholder brings: where the argument that it takes is
/// the name of a field whose type starts with a type parameter, that type
/// must implement the behaviour that the placeholder asks for. `idents`
/// holds, for each argument, the identifier that it is, if it is one.
pub open spec fn spec_hit(
    type_params: Seq<Seq<char>>,
    fields: FieldsModel,
    idents: Seq<Option<Seq<char>>>,
    slot: Slot,
) -> Option<(Seq<char>, Behavior)> {
    if slot.position < idents.len() {
        match idents[slot.position as int] {
            Some(id) => match spec_participant(type_params, fields, id, fields.len() as int) {
                Some(f) => Some((fields.ty(f).text, slot.behavior)),
                None => None,
            },
            None => None,
        }
    } else {
        None
    }
}

/// The bounds that the first `n` placeholders bring.
pub open spec fn spec_used_bounds_upto(
    type_params: Seq<Seq<char>>,
    fields: FieldsModel,
    slots: Seq<Slot>,
    idents: Seq<Option<Seq<char>>>,
    n: int,
) -> Set<(Seq<char>, Behavior)> {
    Set::new(
        |p: (Seq<char>, Behavior)|
            exists|k: int|
                0 <= k < n && k < slots.len() && spec_hit(
                    type_params,
                    fields,
                    idents,
                    #[trigger] slots[k],
                ) == Some(p),
    )
}

/// The bounds that the placeholders of a directive bring.
pub open spec fn spec_used_bounds(
    type_params: Seq<Seq<char>>,
    fields: FieldsModel,
    slots: Seq<Slot>,
    idents: Seq<Option<Seq<char>>>,
) -> Set<(Seq<char>, Behavior)> {
    spec_used_bounds_upto(type_params, fields, slots, idents, slots.len() as int)
}

/// The bound that formatting without a directive brings: the type of the
/// first field must implement the behaviour, where it starts with a type
/// parameter.
pub open spec fn spec_inferred_bounds(
    type_params: Seq<Seq<char>>,
    fields: FieldsModel,
    behavior: Behavior,
) -> Set<(Seq<char>, Behavior)> {
    if fields.len() > 0 && spec_has_type_param(type_params, fields.ty(0)) {
        set![(fields.ty(0).text, behavior)]
    } else {
        Set::empty()
    }
}

/// The bounds that the first `n` placeholders bring, in their order: each
/// placeholder in turn adds its bound.
pub open spec fn spec_used_ordered(
    type_params: Seq<Seq<char>>,
    fields: FieldsModel,
    slots: Seq<Slot>,
    idents: Seq<Option<Seq<char>>>,
    n: int,
) -> Seq<BoundModel>
    decreases n,
{
    if n <= 0 {
        Seq::empty()
    } else {
        let before = spec_used_ordered(type_params, fields, slots, idents, n - 1);
        match spec_hit(type_params, fields, idents, slots[n - 1]) {
            Some(p) => spec_insert(before, p.0, p.1),
            None => before,
        }
    }
}

/// The bound that formatting without a directive brings, as the one entry
/// that it is.
pub open spec fn spec_inferred_ordered(
    type_params: Seq<Seq<char>>,
    fields: FieldsModel,
    behavior: Behavior,
) -> Seq<BoundModel> {
    if fields.len() > 0 && spec_has_type_param(type_params, fields.ty(0)) {
        seq![BoundModel { ty: fields.ty(0).text, behaviors: seq![behavior] }]
    } else {
        Seq::empty()
    }
}

/// The identifier that an argument is, if it is one: a path that is a
/// single identifier, or code that is such a path.
pub open spec fn spec_argument_ident(arg: ArgumentModel) -> Option<Seq<char>> {
    match arg {
        ArgumentModel::Code(s) => match mod_path(s) {
            Some(p) => p.ident(),
            None => None,
        },
        ArgumentModel::Path(p) => p.ident(),
    }
}

/// For each argument, the identifier that it is, if it is one.
pub open spec fn spec_idents(args: Seq<ArgumentModel>) -> Seq<Option<Seq<char>>> {
    Seq::new(args.len(), |k: int| spec_argument_ident(args[k]))
}

/// Without type parameters no field takes part.
pub proof fn lemma_no_participant(fields: FieldsModel, id: Seq<char>, n: int)
    ensures
        spec_participant(Seq::empty(), fields, id, n) is None,
    decreases n,
{
    if n > 0 {
        lemma_no_participant(fields, id, n - 1);
    }
}

/// Without type parameters a directive brings no bounds.
pub proof fn lemma_no_type_params(
    fields: FieldsModel,
    slots: Seq<Slot>,
    idents: Seq<Option<Seq<char>>>,
)
    ensures
        spec_used_bounds(Seq::empty(), fields, slots, idents) == Set::<
            (Seq<char>, Behavior),
        >::empty(),
{
    let tp = Seq::<Seq<char>>::empty();
    assert forall|p: (Seq<char>, Behavior)|
        !spec_used_bounds(tp, fields, slots, idents).contains(p) by {
        assert forall|k: int| 0 <= k < slots.len() implies spec_hit(
            tp,
            fields,
            idents,
            #[trigger] slots[k],
        ) is None by {
            if slots[k].position < idents.len() {
                if let Some(id) = idents[slots[k].position as int] {
                    lemma_no_participant(fields, id, fields.len() as int);
                }
            }
        }
    }
    assert(spec_used_bounds(tp, fields, slots, idents) =~= Set::<(Seq<char>, Behavior)>::empty());
}

/// Without type parameters a directive brings no bounds in any order.
pub proof fn lemma_no_type_params_ordered(
    fields: FieldsModel,
    slots: Seq<Slot>,
    idents: Seq<Option<Seq<char>>>,
    n: int,
)
    ensures
        spec_used_ordered(Seq::empty(), fields, slots, idents, n) == Seq::<BoundModel>::empty(),
    decreases n,
{
    if n > 0 {
        lemma_no_type_params_ordered(fields, slots, idents, n - 1);
        let slot = slots[n - 1];
        if slot.position < idents.len() {
            if let Some(id) = idents[slot.position as int] {
                lemma_no_participant(fields, id, fields.len() as int);
            }
        }
    }
}

/// Whether the declared type starts with one of the type parameters.
pub fn has_type_param(type_params: &Vec<String>, ty: &FieldType) -> (r: bool)
    ensures
        r == spec_has_type_param(type_params.deep_view(), ty.deep_view()),
{
    match &ty.head {
        Some(h) => contains_str(type_params, h.as_str()),
        None => false,
    }
}

/// The last field that is bound under the name `id` and whose declared type
/// starts with a type parameter.
pub fn participant(type_params: &Vec<String>, fields: &Fields, id: &str) -> (r: Option<usize>)
    ensures
        r matches Some(f) ==> f < fields.deep_view().len(),
        spec_participant(
            type_params.deep_view(),
            fields.deep_view(),
            id@,
            fields.deep_view().len() as int,
        ) == match r {
            Some(f) => Some(f as int),
            None => None,
        },
{
    let mut n: usize = fields.len();
    while n > 0
        invariant
            n <= fields.deep_view().len(),
            spec_participant(
                type_params.deep_view(),
                fields.deep_view(),
                id@,
                fields.deep_view().len() as int,
            ) == spec_participant(type_params.deep_view(), fields.deep_view(), id@, n as int),
        decreases n,
    {
        let name = fields.field_name(n - 1);
        if str_eq(name.as_str(), id) && has_type_param(type_params, fields.field_type(n - 1)) {
            return Some(n - 1);
        }
        n -= 1;
    }
    None
}

/// The bounds that the placeholders of a directive bring, given the
/// identifier that each argument is, if it is one.
pub fn bounds_for(
    type_params: &Vec<String>,
    fields: &Fields,
    slots: &Vec<Slot>,
    idents: &Vec<Option<String>>,
) -> (r: BoundSet)
    ensures
        r.wf(),
        r.pairs() == spec_used_bounds(
            type_params.deep_view(),
            fields.deep_view(),
            slots@,
            idents.deep_view(),
        ),
        r.deep_view() == spec_used_ordered(
            type_params.deep_view(),
            fields.deep_view(),
            slots@,
            idents.deep_view(),
            slots.len() as int,
        ),
{
    let ghost tp = type_params.deep_view();
    let ghost ids = idents.deep_view();
    let mut out = BoundSet::new();
    let mut k: usize = 0;
    proof {
        assert(spec_used_bounds_upto(tp, fields.deep_view(), slots@, ids, 0) =~= Set::<
            (Seq<char>, Behavior),
        >::empty());
    }
    while k < slots.len()
        invariant
            k <= slots.len(),
            tp == type_params.deep_view(),
            ids == idents.deep_view(),
            out.wf(),
            out.pairs() == spec_used_bounds_upto(tp, fields.deep_view(), slots@, ids, k as int),
            out.deep_view() == spec_used_ordered(tp, fields.deep_view(), slots@, ids, k as int),
        decreases slots.len() - k,
    {
        let slot = slots[k];
        let ghost before = out.pairs();
        let ghost before_ordered = out.deep_view();
        if slot.position < idents.len() {
            proof {
                assert(ids[slot.position as int] == idents@[slot.position as int].deep_view());
            }
            match &idents[slot.position] {
                Some(id) => {
                    let found = participant(type_params, fields, id.as_str());
                    proof {
                        assert(ids.len() == idents.len());
                        assert(ids[slot.position as int] == Some(id@));
                    }
                    match found {
                        Some(f) => {
                            out.insert(fields.field_type(f).text.as_str(), slot.behavior);
                            proof {
                                assert(spec_hit(tp, fields.deep_view(), ids, slot) == Some(
                                    (fields.deep_view().ty(f as int).text, slot.behavior),
                                ));
                            }
                        },
                        None => {
                            proof {
                                assert(spec_hit(tp, fields.deep_view(), ids, slot) is None);
                            }
                        },
                    }
                },
                None => {
                    proof {
                        assert(ids.len() == idents.len());
                        assert(spec_hit(tp, fields.deep_view(), ids, slot) is None);
                    }
                },
            }
        } else {
            proof {
                assert(ids.len() == idents.len());
                assert(spec_hit(tp, fields.deep_view(), ids, slot) is None);
            }
        }
        proof {
            let hit = spec_hit(tp, fields.deep_view(), ids, slots@[k as int]);
            let next = spec_used_bounds_upto(tp, fields.deep_view(), slots@, ids, k + 1);
            match hit {
                Some(p) => {
                    assert(out.pairs() == before.insert(p));
                    assert(next =~= before.insert(p));
                    assert(out.deep_view() == spec_insert(before_ordered, p.0, p.1));
                },
                None => {
                    assert(out.pairs() == before);
                    assert(next =~= before);
                    assert(out.deep_view() == before_ordered);
                },
            }
        }
        k += 1;
    }
    out
}

/// The bound that formatting without a directive brings.
pub fn inferred_bounds(type_params: &Vec<String>, fields: &Fields, behavior: Behavior) -> (r:
    BoundSet)
    ensures
        r.wf(),
        r.pairs() == spec_inferred_bounds(type_params.deep_view(), fields.deep_view(), behavior),
        r.deep_view() == spec_inferred_ordered(
            type_params.deep_view(),
            fields.deep_view(),
            behavior,
        ),
{
    let mut out = BoundSet::new();
    if fields.len() > 0 {
        let ty = fields.field_type(0);
        if has_type_param(type_params, ty) {
            out.insert(ty.text.as_str(), behavior);
            proof {
                assert(out.pairs() =~= set![(ty.text@, behavior)]);
                assert(out.deep_view() =~= seq![
                    BoundModel { ty: ty.text@, behaviors: seq![behavior] },
                ]);
            }
        }
    }
    out
}

/// For each argument, the identifier that it is, if it is one.
pub fn argument_idents(args: &Vec<Argument>) -> (r: Vec<Option<String>>)
    ensures
        r.deep_view() == spec_idents(args.deep_view()),
{
    let mut out: Vec<Option<String>> = Vec::new();
    let mut k: usize = 0;
    while k < args.len()
        invariant
            k <= args.len(),
            out.len() == k,
            forall|j: int|
                0 <= j < k ==> (#[trigger] out[j]).deep_view() == spec_argument_ident(
                    args[j].deep_view(),
                ),
        decreases args.len() - k,
    {
        let ident = match &args[k] {
            Argument::Code(s) => match parse_mod_path(s.as_str()) {
                Some(p) => p.get_ident(),
                None => None,
            },
            Argument::Path(p) => p.get_ident(),
        };
        out.push(ident);
        k += 1;
    }
    proof {
        assert(out.deep_view() =~= spec_idents(args.deep_view()));
    }
    out
}

} // verus!
