//! What holds of references and of lists whatever the scopes hold.

use super::ids::{InstructionId, VarNameId};
use super::instruction::{Instruction, IterTarget};
use super::object::{Record, Value, VariableRef};
use super::semantics::{after, iter_len, range_advanced, stepped, variable_advanced};
use super::path::{
    deref, find_named, find_scope, follow, hop_limit, is_named, key_of, project, properties_of,
    select, slot, text_of, Failure, Frames, ListKey, VarFieldId,
};
use crate::text::parsed_u64;
use vstd::prelude::*;

verus! {

/// The reference that stands `n` hops down the chain that starts at `r`.
pub open spec fn chain_end(frames: Frames, r: VariableRef, n: nat) -> Option<VariableRef>
    decreases n,
{
    if n == 0 {
        Some(r)
    } else {
        match slot(frames, r) {
            Some(Value::Ref(next)) => chain_end(frames, next, (n - 1) as nat),
            _ => None,
        }
    }
}

/// A chain of references never ends in a reference.
pub proof fn lemma_follow_ends_plain(frames: Frames, r: VariableRef, hops: nat)
    ensures
        follow(frames, r, hops) matches Some(v) ==> !(v is Ref),
    decreases hops,
{
    if let Some(Value::Ref(next)) = slot(frames, r) {
        if hops > 0 {
            lemma_follow_ends_plain(frames, next, (hops - 1) as nat);
        }
    }
}

/// A chain that ends within `a` hops ends at the same value within any
/// larger number of hops.
pub proof fn lemma_follow_more_hops(frames: Frames, r: VariableRef, a: nat, b: nat)
    requires
        a <= b,
        follow(frames, r, a) is Some,
    ensures
        follow(frames, r, b) == follow(frames, r, a),
    decreases a,
{
    if let Some(Value::Ref(next)) = slot(frames, r) {
        lemma_follow_more_hops(frames, next, (a - 1) as nat, (b - 1) as nat);
    }
}

/// Following references is transparent: where `n` references lead from `r`
/// to `last`, and `last` points at a value that is no reference, `r` stands
/// for that same value, as `last` does and as does every reference between
/// them.
pub proof fn lemma_chain_transparent(frames: Frames, r: VariableRef, n: nat, last: VariableRef, v: Value)
    requires
        n <= hop_limit(),
        chain_end(frames, r, n) == Some(last),
        slot(frames, last) == Some(v),
        !(v is Ref),
    ensures
        deref(frames, r) == Some(v),
        deref(frames, last) == Some(v),
        forall|k: nat|
            k <= n ==> (#[trigger] chain_end(frames, r, k) matches Some(mid) && deref(frames, mid)
                == Some(v)),
{
    assert forall|k: nat| k <= n implies (#[trigger] chain_end(frames, r, k) matches Some(mid) && deref(
        frames,
        mid,
    ) == Some(v)) by {
        lemma_chain_prefix(frames, r, n, k, last);
        let mid = chain_end(frames, r, k)->0;
        lemma_chain_follow(frames, mid, (n - k) as nat, last, v);
        lemma_follow_more_hops(frames, mid, (n - k) as nat, hop_limit());
    }
    assert(chain_end(frames, r, 0) == Some(r));
    assert(chain_end(frames, r, n) == Some(last));
}

/// A chain of `n` references passes through a reference after each `k <= n`
/// hops, from which `n - k` hops are left.
pub proof fn lemma_chain_prefix(frames: Frames, r: VariableRef, n: nat, k: nat, last: VariableRef)
    requires
        k <= n,
        chain_end(frames, r, n) == Some(last),
    ensures
        chain_end(frames, r, k) matches Some(mid) && chain_end(frames, mid, (n - k) as nat) == Some(
            last,
        ),
    decreases k,
{
    if k > 0 {
        let next = slot(frames, r)->0->Ref_0;
        lemma_chain_prefix(frames, next, (n - 1) as nat, (k - 1) as nat, last);
    }
}

/// Where `n` references lead from `r` to `last`, which points at a value
/// that is no reference, following `r` for `n` hops reaches that value.
pub proof fn lemma_chain_follow(frames: Frames, r: VariableRef, n: nat, last: VariableRef, v: Value)
    requires
        chain_end(frames, r, n) == Some(last),
        slot(frames, last) == Some(v),
        !(v is Ref),
    ensures
        follow(frames, r, n) == Some(v),
    decreases n,
{
    if n > 0 {
        let next = slot(frames, r)->0->Ref_0;
        lemma_chain_follow(frames, next, (n - 1) as nat, last, v);
    }
}

/// A reference reads as the value it stands for: its fields, the list key
/// it spells and its text are those of that value.
pub proof fn lemma_ref_reads_as_target(frames: Frames, r: VariableRef, v: Value, field: VarFieldId)
    requires
        deref(frames, r) == Some(v),
    ensures
        !(v is Ref),
        project(frames, Value::Ref(r), field) == project(frames, v, field),
        key_of(frames, Value::Ref(r)) == key_of(frames, v),
        text_of(frames, Value::Ref(r)) == text_of(frames, v),
{
    lemma_follow_ends_plain(frames, r, hop_limit());
    assert(properties_of(frames, Value::Ref(r)) == properties_of(frames, v));
}

/// Appending to a list leaves what a name finds in it as it was, where it
/// found something; where it found nothing, it finds the new element if
/// that is a struct of that name.
pub proof fn lemma_find_named_push(list: Seq<Value>, v: Value, name: Seq<char>)
    ensures
        find_named(list.push(v), name) == match find_named(list, name) {
            Some(i) => Some(i),
            None => if is_named(v, name) {
                Some(list.len() as int)
            } else {
                None
            },
        },
{
    assert(list.push(v).drop_last() =~= list);
}

/// A struct that is appended to a list is what the list gives back for the
/// struct's base used as a name, provided no struct before it has that base.
/// A base that does not spell a number is such a name.
pub proof fn lemma_push_then_select_by_name(frames: Frames, list: Seq<Value>, rec: Record)
    requires
        find_named(list, rec.base) is None,
    ensures
        select(list.push(Value::Struct(rec)), ListKey::Name(rec.base)) == Ok::<Value, Failure>(
            Value::Struct(rec),
        ),
        parsed_u64(rec.base) is None ==> key_of(frames, Value::Struct(rec)) == Some(
            ListKey::Name(rec.base),
        ),
{
    lemma_find_named_push(list, Value::Struct(rec), rec.base);
}

/// A step of a loop over a variable goes to the loop's jump exactly when
/// the offset after the step has reached the number of steps, and to the
/// next instruction otherwise; so the offset that the body of the loop sees
/// is always one of a step that there is.
pub proof fn lemma_increment_stays_in_range<T>(
    frames: Frames,
    target: VarNameId,
    iter: VarNameId,
    jump: InstructionId,
    counter: usize,
)
    requires
        variable_advanced(frames, target, iter) is Ok,
    ensures
        ({
            let (now, over) = variable_advanced(frames, target, iter)->Ok_0;
            let steps = iter_len(frames[find_scope(frames, target.0)->0][target.0])->0;
            let at = find_scope(frames, iter.0)->0;
            let i: Instruction<T> = Instruction::Increment {
                target: IterTarget::Variable(target),
                iter,
                jump,
            };
            &&& stepped(i, frames, counter) == Some(
                (
                    now,
                    if over {
                        jump.0
                    } else {
                        after(counter)
                    },
                ),
            )
            &&& over <==> frames[at][iter.0]->Ref_0.offset + 1 >= steps
            &&& !over && frames[at][iter.0]->Ref_0.offset < usize::MAX ==> now[at][iter.0] is Ref
                && now[at][iter.0]->Ref_0.offset == frames[at][iter.0]->Ref_0.offset + 1
                && now[at][iter.0]->Ref_0.offset < steps
        }),
{
    super::state::lemma_find_scope(frames, iter.0);
}

/// A step of a loop over a range goes to the loop's jump exactly when the
/// counter after the step has reached the end of its range, and to the next
/// instruction otherwise; so the number that the body of the loop sees is
/// always one of the range.
pub proof fn lemma_range_increment_stays_in_range<T>(
    frames: Frames,
    iter: VarNameId,
    jump: InstructionId,
    counter: usize,
)
    requires
        range_advanced(frames, iter) is Ok,
    ensures
        ({
            let (now, over) = range_advanced(frames, iter)->Ok_0;
            let at = find_scope(frames, iter.0)->0;
            let before = frames[at][iter.0]->Counter_0;
            let i: Instruction<T> = Instruction::Increment { target: IterTarget::Range, iter, jump };
            &&& stepped(i, frames, counter) == Some(
                (
                    now,
                    if over {
                        jump.0
                    } else {
                        after(counter)
                    },
                ),
            )
            &&& over <==> before.value() + 1 >= before.end
            &&& !over && before.offset < usize::MAX ==> now[at][iter.0] is Counter
                && now[at][iter.0]->Counter_0.value() == before.value() + 1
                && now[at][iter.0]->Counter_0.value() < before.end
        }),
{
    super::state::lemma_find_scope(frames, iter.0);
}

} // verus!
