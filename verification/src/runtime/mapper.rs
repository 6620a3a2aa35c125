//! Which fields of one message fill which fields of another: mappings
//! between field paths, resolved ahead of time into a plan of steps.
use vstd::prelude::*;

verus! {

/// Deepest path the engine describes, so a path never needs the heap.
pub const MAX_PATH: usize = 8;

/// A path to a field, held inline: one or two steps is the normal case, and a
/// heap read per mapping per message is not worth paying for.
#[derive(Debug, Clone, Copy)]
pub struct Path {
    steps: [u32; MAX_PATH],
    len: u8,
}

impl View for Path {
    type V = Seq<u32>;

    closed spec fn view(&self) -> Seq<u32> {
        self.steps@.take(self.len as int)
    }
}

impl Path {
    #[verifier::type_invariant]
    closed spec fn len_in_range(self) -> bool {
        1 <= self.len <= MAX_PATH
    }
}

/// The path the steps name: none for an empty one, one deeper than
/// `MAX_PATH`, or one with a step past 32 bits.
pub open spec fn spec_path(steps: Seq<usize>) -> Option<Seq<u32>> {
    if steps.len() == 0 || steps.len() > MAX_PATH || exists|i: int| 0 <= i < steps.len() && steps[i] > u32::MAX {
        None
    } else {
        Some(steps.map_values(|s: usize| s as u32))
    }
}

impl Path {
    pub fn new(steps: &[usize]) -> (r: Option<Self>)
        ensures
            match spec_path(steps@) {
                None => r is None,
                Some(p) => r matches Some(path) && path@ == p,
            },
    {
        if steps.len() == 0 || steps.len() > MAX_PATH {
            return None;
        }
        let mut inline: [u32; MAX_PATH] = [0u32; MAX_PATH];
        let mut i: usize = 0;
        while i < steps.len()
            invariant
                1 <= steps@.len() <= MAX_PATH,
                i <= steps@.len(),
                inline@.len() == MAX_PATH,
                forall|j: int| 0 <= j < i ==> #[trigger] steps@[j] <= u32::MAX,
                forall|j: int| 0 <= j < i ==> #[trigger] inline@[j] == steps@[j] as u32,
            decreases steps@.len() - i,
        {
            if steps[i] > u32::MAX as usize {
                return None;
            }
            let ghost prior = inline@;
            inline[i] = steps[i] as u32;
            assert(inline@ == prior.update(i as int, steps@[i as int] as u32));
            i = i + 1;
        }
        let path = Path { steps: inline, len: steps.len() as u8 };
        proof {
            assert(path@ =~= steps@.map_values(|s: usize| s as u32));
        }
        Some(path)
    }

    /// The steps, outermost first.
    pub fn as_slice(&self) -> (r: &[u32])
        ensures
            r@ == self@,
    {
        proof {
            use_type_invariant(self);
        }
        let all = vstd::array::array_as_slice(&self.steps);
        let r = vstd::slice::slice_subrange(all, 0, self.len as usize);
        proof {
            assert(r@ =~= self@);
        }
        r
    }

    /// The field index when the path is a plain one, which nearly all are.
    fn flat(&self) -> (r: Option<usize>)
        ensures
            r == (if self@.len() == 1 {
                Some(self@[0] as usize)
            } else {
                None::<usize>
            }),
    {
        proof {
            use_type_invariant(self);
        }
        if self.len == 1 {
            Some(self.steps[0] as usize)
        } else {
            None
        }
    }
}

/// One mapping resolved ahead of time: a field index either side for
/// top-level fields, whole paths for nested ones.
#[derive(Debug, Clone, Copy)]
enum Step {
    Flat { from: usize, to: usize },
    Nested { from: Path, to: Path },
}

/// A step as its two paths.
pub enum StepView {
    Flat { from: usize, to: usize },
    Nested { from: Seq<u32>, to: Seq<u32> },
}

impl View for Step {
    type V = StepView;

    closed spec fn view(&self) -> StepView {
        match self {
            Step::Flat { from, to } => StepView::Flat { from: *from, to: *to },
            Step::Nested { from, to } => StepView::Nested { from: from@, to: to@ },
        }
    }
}

/// Which field fills which.
#[derive(Debug, Clone)]
pub struct Mapping {
    /// Path to the source value in the input message.
    ///
    /// Example: [2, 4, 1] means:
    /// input[2].record[4].record[1]
    pub input: Vec<usize>,
    /// Path to the destination value in the output message.
    ///
    /// Example: [0, 3, 2] means:
    /// output[0].record[3].record[2]
    pub output: Vec<usize>,
}

/// A mapping as its two paths.
pub open spec fn mapping_view(m: Mapping) -> (Seq<usize>, Seq<usize>) {
    (m.input@, m.output@)
}

/// The step a mapping resolves to: none where a path is not one, a flat step
/// where both are one step long.
pub open spec fn step_of(m: (Seq<usize>, Seq<usize>)) -> Option<StepView> {
    match (spec_path(m.0), spec_path(m.1)) {
        (Some(from), Some(to)) => Some(
            if from.len() == 1 && to.len() == 1 {
                StepView::Flat { from: from[0] as usize, to: to[0] as usize }
            } else {
                StepView::Nested { from, to }
            },
        ),
        _ => None,
    }
}

/// The plan for the mappings: the step of each one that resolves, in order.
pub open spec fn plan_of(ms: Seq<(Seq<usize>, Seq<usize>)>) -> Seq<StepView>
    decreases ms.len(),
{
    if ms.len() == 0 {
        Seq::empty()
    } else {
        match step_of(ms.last()) {
            Some(s) => plan_of(ms.drop_last()).push(s),
            None => plan_of(ms.drop_last()),
        }
    }
}

/// Whether a plan is "field 0 to field 0, field 1 to field 1, …", in which
/// case the values can go across as they are.
pub open spec fn is_identity(plan: Seq<StepView>) -> bool {
    forall|i: int| 0 <= i < plan.len() ==> #[trigger] plan[i] == (StepView::Flat { from: i as usize, to: i as usize })
}

/// The mappings left once those filling `output` are dropped, in order.
pub open spec fn without_output(ms: Seq<(Seq<usize>, Seq<usize>)>, output: Seq<usize>) -> Seq<(Seq<usize>, Seq<usize>)>
    decreases ms.len(),
{
    if ms.len() == 0 {
        Seq::empty()
    } else if ms.last().1 == output {
        without_output(ms.drop_last(), output)
    } else {
        without_output(ms.drop_last(), output).push(ms.last())
    }
}

/// The mappings, and the plan they compile to.
pub struct Mapper {
    mappings: Vec<Mapping>,
    /// The mappings compiled down to steps, rebuilt whenever they change
    /// rather than walked per message.
    plan: Vec<Step>,
    /// Whether the plan is the identity, in which case the values go across
    /// as they are.
    identity: bool,
}

impl View for Mapper {
    type V = Seq<(Seq<usize>, Seq<usize>)>;

    closed spec fn view(&self) -> Seq<(Seq<usize>, Seq<usize>)> {
        self.mappings@.map_values(|m: Mapping| mapping_view(m))
    }
}

impl Mapper {
    #[verifier::type_invariant]
    closed spec fn plan_matches(self) -> bool {
        &&& self.plan@.map_values(|s: Step| s@) == plan_of(self@)
        &&& self.identity == is_identity(plan_of(self@))
    }
}

/// The plan after one more mapping.
proof fn lemma_plan_push(ms: Seq<(Seq<usize>, Seq<usize>)>, m: (Seq<usize>, Seq<usize>))
    ensures
        plan_of(ms.push(m)) == match step_of(m) {
            Some(s) => plan_of(ms).push(s),
            None => plan_of(ms),
        },
{
    assert(ms.push(m).drop_last() =~= ms);
}

/// Whether two paths are the same.
fn same_path(a: &[usize], b: &[usize]) -> (r: bool)
    ensures
        r == (a@ == b@),
{
    if a.len() != b.len() {
        return false;
    }
    let mut i: usize = 0;
    while i < a.len()
        invariant
            a@.len() == b@.len(),
            i <= a@.len(),
            forall|j: int| 0 <= j < i ==> a@[j] == b@[j],
        decreases a@.len() - i,
    {
        if a[i] != b[i] {
            return false;
        }
        i = i + 1;
    }
    proof {
        assert(a@ =~= b@);
    }
    true
}

/// Resolves every mapping into a step the routing loop can run blind, and
/// says whether they make up the identity.
fn compile(mappings: &Vec<Mapping>) -> (r: (Vec<Step>, bool))
    ensures
        r.0@.map_values(|s: Step| s@) == plan_of(mappings@.map_values(|m: Mapping| mapping_view(m))),
        r.1 == is_identity(plan_of(mappings@.map_values(|m: Mapping| mapping_view(m)))),
{
    let ghost ms = mappings@.map_values(|m: Mapping| mapping_view(m));
    let mut plan: Vec<Step> = Vec::new();
    let mut i: usize = 0;
    while i < mappings.len()
        invariant
            i <= mappings@.len(),
            ms == mappings@.map_values(|m: Mapping| mapping_view(m)),
            plan@.map_values(|s: Step| s@) == plan_of(ms.take(i as int)),
        decreases mappings@.len() - i,
    {
        let mapping = &mappings[i];
        proof {
            assert(ms.take(i + 1) =~= ms.take(i as int).push(ms[i as int]));
            lemma_plan_push(ms.take(i as int), ms[i as int]);
        }
        let from = Path::new(mapping.input.as_slice());
        let to = Path::new(mapping.output.as_slice());
        if let (Some(from), Some(to)) = (from, to) {
            let step = match (from.flat(), to.flat()) {
                (Some(from), Some(to)) => Step::Flat { from, to },
                _ => Step::Nested { from, to },
            };
            let ghost before = plan@;
            plan.push(step);
            proof {
                assert(plan@.map_values(|s: Step| s@) =~= before.map_values(|s: Step| s@).push(step@));
            }
        }
        i = i + 1;
    }
    proof {
        assert(ms.take(i as int) =~= ms);
    }
    let ghost p = plan@.map_values(|s: Step| s@);
    let mut identity = true;
    let mut k: usize = 0;
    while k < plan.len()
        invariant
            k <= plan@.len(),
            p == plan@.map_values(|s: Step| s@),
            identity == (forall|j: int| 0 <= j < k ==> #[trigger] p[j] == (StepView::Flat { from: j as usize, to: j as usize })),
        decreases plan@.len() - k,
    {
        let at_place = match plan[k] {
            Step::Flat { from, to } => from == k && to == k,
            Step::Nested { .. } => false,
        };
        proof {
            assert(p[k as int] == plan@[k as int]@);
        }
        identity = identity && at_place;
        k = k + 1;
    }
    (plan, identity)
}

impl Mapper {
    pub fn new() -> (r: Self)
        ensures
            r@ == Seq::<(Seq<usize>, Seq<usize>)>::empty(),
    {
        let mappings: Vec<Mapping> = Vec::new();
        let (plan, identity) = compile(&mappings);
        let r = Mapper { mappings, plan, identity };
        proof {
            assert(r@ =~= Seq::<(Seq<usize>, Seq<usize>)>::empty());
        }
        r
    }

    pub fn add(&mut self, mapping: Mapping)
        ensures
            final(self)@ == old(self)@.push(mapping_view(mapping)),
    {
        let mut current = Mapper::new();
        std::mem::swap(&mut current, self);
        let mut mappings = current.mappings;
        let ghost before = mappings@;
        mappings.push(mapping);
        proof {
            assert(mappings@.map_values(|m: Mapping| mapping_view(m)) =~= before.map_values(|m: Mapping| mapping_view(m)).push(mapping_view(mapping)));
        }
        let (plan, identity) = compile(&mappings);
        *self = Mapper { mappings, plan, identity };
    }

    /// Drops whatever fills `output`, and says whether anything did. A field
    /// is filled by one mapping, so its path names the mapping.
    pub fn remove(&mut self, output: &[usize]) -> (r: bool)
        ensures
            final(self)@ == without_output(old(self)@, output@),
            r == (final(self)@.len() < old(self)@.len()),
    {
        let mut current = Mapper::new();
        std::mem::swap(&mut current, self);
        let mut mappings = current.mappings;
        let ghost all = mappings@.map_values(|m: Mapping| mapping_view(m));
        let ghost orig = mappings@;
        let before = mappings.len();
        let mut kept: Vec<Mapping> = Vec::new();
        while mappings.len() > 0
            invariant
                all == orig.map_values(|m: Mapping| mapping_view(m)),
                mappings@ == orig.skip(orig.len() - mappings@.len()),
                mappings@.len() <= orig.len(),
                kept@.map_values(|m: Mapping| mapping_view(m)) == without_output(all.take(orig.len() - mappings@.len()), output@),
                kept@.len() <= orig.len() - mappings@.len(),
            decreases mappings@.len(),
        {
            let ghost i = orig.len() - mappings@.len();
            let mapping = mappings.remove(0);
            proof {
                assert(orig.skip(i)[0] == orig[i]);
                assert(mappings@ =~= orig.skip(i + 1));
                assert(all.take(i + 1) =~= all.take(i).push(all[i]));
                assert(all.take(i + 1).drop_last() =~= all.take(i));
            }
            if !same_path(mapping.output.as_slice(), output) {
                let ghost prior = kept@;
                kept.push(mapping);
                proof {
                    assert(kept@.map_values(|m: Mapping| mapping_view(m)) =~= prior.map_values(|m: Mapping| mapping_view(m)).push(mapping_view(mapping)));
                }
            }
        }
        proof {
            assert(all.take(orig.len() as int) =~= all);
        }
        let removed = kept.len() < before;
        let (plan, identity) = compile(&kept);
        *self = Mapper { mappings: kept, plan, identity };
        removed
    }

    /// The mappings, in the order they were added.
    pub fn iter(&self) -> (r: &[Mapping])
        ensures
            r@.map_values(|m: Mapping| mapping_view(m)) == self@,
    {
        self.mappings.as_slice()
    }

    pub fn len(&self) -> (r: usize)
        ensures
            r == self@.len(),
    {
        self.mappings.len()
    }

    pub fn is_empty(&self) -> (r: bool)
        ensures
            r == (self@.len() == 0),
    {
        self.mappings.len() == 0
    }

    /// Whether the mappings take field 0 to field 0, field 1 to field 1 and
    /// so on, so that a message's values can go across as they are.
    pub fn identity(&self) -> (r: bool)
        ensures
            r == is_identity(plan_of(self@)),
    {
        proof {
            use_type_invariant(self);
        }
        self.identity
    }
}

/// Whether step `k` of `plan` fills top-level field `index` of the target
/// from a field of the source of the kind the target wants there.
pub open spec fn fills(plan: Seq<StepView>, k: int, source: Seq<u32>, target: Seq<u32>, index: int) -> bool {
    match plan[k] {
        StepView::Flat { from, to } => to == index && from < source.len() && source[from as int] == target[index],
        StepView::Nested { .. } => false,
    }
}

/// Whether a plan fills every field of the target, each from a field of
/// the source of the same kind, so a mapped message needs no checking. A
/// nested step never counts: its record may be replaced wholesale by
/// whatever the source carries, so it is checked per message.
pub open spec fn covered(plan: Seq<StepView>, source: Seq<u32>, target: Seq<u32>) -> bool {
    &&& plan.len() == target.len()
    &&& forall|index: int| 0 <= index < target.len() ==> #[trigger] filled(plan, source, target, index)
}

/// Whether some step of `plan` fills field `index` of the target.
pub open spec fn filled(plan: Seq<StepView>, source: Seq<u32>, target: Seq<u32>, index: int) -> bool {
    exists|k: int| 0 <= k < plan.len() && #[trigger] fills(plan, k, source, target, index)
}

impl Mapper {
    /// Whether the mappings fill every field of a target whose fields have
    /// the kinds `target`, each from a field of a source with the kinds
    /// `source` of the same kind: then a mapped message needs no checking.
    /// Kinds are given by their codes.
    pub fn covers(&self, source: &[u32], target: &[u32]) -> (r: bool)
        ensures
            r == covered(plan_of(self@), source@, target@),
    {
        proof {
            use_type_invariant(self);
        }
        let ghost plan = plan_of(self@);
        if self.plan.len() != target.len() {
            return false;
        }
        let mut index: usize = 0;
        while index < target.len()
            invariant
                index <= target@.len(),
                plan == plan_of(self@),
                self.plan@.map_values(|s: Step| s@) == plan,
                plan.len() == target@.len(),
                forall|i: int| 0 <= i < index ==> #[trigger] filled(plan, source@, target@, i),
            decreases target@.len() - index,
        {
            let mut k: usize = 0;
            let mut found = false;
            while k < self.plan.len()
                invariant
                    k <= self.plan@.len(),
                    index < target@.len(),
                    self.plan@.map_values(|s: Step| s@) == plan,
                    found ==> exists|j: int| 0 <= j < plan.len() && #[trigger] fills(plan, j, source@, target@, index as int),
                    !found ==> forall|j: int| 0 <= j < k ==> !#[trigger] fills(plan, j, source@, target@, index as int),
                decreases self.plan@.len() - k,
            {
                let hit = match &self.plan[k] {
                    Step::Flat { from, to } => *to == index && *from < source.len() && source[*from] == target[index],
                    Step::Nested { .. } => false,
                };
                proof {
                    assert(plan[k as int] == self.plan@[k as int]@);
                    assert(hit == fills(plan, k as int, source@, target@, index as int));
                }
                if hit {
                    found = true;
                }
                k = k + 1;
            }
            if !found {
                proof {
                    assert(!filled(plan, source@, target@, index as int));
                }
                return false;
            }
            index = index + 1;
        }
        true
    }
}

/// What a sequence holds after one more item.
proof fn lemma_push_contains<A>(s: Seq<A>, x: A, m: A)
    ensures
        s.push(x).contains(m) <==> (s.contains(m) || x == m),
{
    if s.push(x).contains(m) {
        let k = choose|k: int| 0 <= k < s.len() + 1 && s.push(x)[k] == m;
        if k < s.len() {
            assert(s[k] == m);
        }
    }
    if s.contains(m) {
        let k = choose|k: int| 0 <= k < s.len() && s[k] == m;
        assert(s.push(x)[k] == m);
    }
    if x == m {
        assert(s.push(x)[s.len() as int] == m);
    }
}

/// Removing by an output path leaves no mapping filling that path, and
/// keeps every other mapping.
pub proof fn law_remove_drops_only_that_output(ms: Seq<(Seq<usize>, Seq<usize>)>, output: Seq<usize>)
    ensures
        forall|i: int| 0 <= i < without_output(ms, output).len() ==> #[trigger] without_output(ms, output)[i].1 != output,
        forall|m: (Seq<usize>, Seq<usize>)| m.1 != output ==> (ms.contains(m) <==> #[trigger] without_output(ms, output).contains(m)),
        without_output(ms, output).len() <= ms.len(),
    decreases ms.len(),
{
    if ms.len() > 0 {
        let init = ms.drop_last();
        let l = ms.last();
        law_remove_drops_only_that_output(init, output);
        let rest = without_output(init, output);
        assert(ms =~= init.push(l));
        assert forall|m: (Seq<usize>, Seq<usize>)| m.1 != output implies (ms.contains(m) <==> #[trigger] without_output(ms, output).contains(m)) by {
            lemma_push_contains(init, l, m);
            lemma_push_contains(rest, l, m);
        }
    }
}

/// A mapping added and then removed by its output path leaves the mappings
/// as removing from the ones before would.
pub proof fn law_add_then_remove(ms: Seq<(Seq<usize>, Seq<usize>)>, m: (Seq<usize>, Seq<usize>))
    ensures
        without_output(ms.push(m), m.1) == without_output(ms, m.1),
{
    assert(ms.push(m).drop_last() =~= ms);
}

/// The mappings whose two paths both resolve, in order: those the plan has
/// a step for.
pub open spec fn resolved(ms: Seq<(Seq<usize>, Seq<usize>)>) -> Seq<(Seq<usize>, Seq<usize>)>
    decreases ms.len(),
{
    if ms.len() == 0 {
        Seq::empty()
    } else if step_of(ms.last()) is Some {
        resolved(ms.drop_last()).push(ms.last())
    } else {
        resolved(ms.drop_last())
    }
}

/// The plan holds, in order, the step of each resolved mapping.
proof fn lemma_plan_resolved(ms: Seq<(Seq<usize>, Seq<usize>)>)
    ensures
        plan_of(ms).len() == resolved(ms).len(),
        forall|k: int|
            0 <= k < resolved(ms).len() ==> step_of(#[trigger] resolved(ms)[k]) == Some(plan_of(ms)[k]),
    decreases ms.len(),
{
    if ms.len() > 0 {
        lemma_plan_resolved(ms.drop_last());
    }
}

/// A resolved mapping steps field `i` to field `i` exactly when both its
/// paths are the one step `i`.
proof fn lemma_flat_in_place(m: (Seq<usize>, Seq<usize>), i: usize)
    requires
        step_of(m) is Some,
    ensures
        (step_of(m)->Some_0 == (StepView::Flat { from: i, to: i })) <==> (m.0 == seq![i] && m.1 == seq![i]),
{
    let from = spec_path(m.0)->Some_0;
    let to = spec_path(m.1)->Some_0;
    if m.0 == seq![i] && m.1 == seq![i] {
        assert(from[0] == i as u32);
        assert(to[0] == i as u32);
    }
    if step_of(m)->Some_0 == (StepView::Flat { from: i, to: i }) {
        assert(m.0[0] <= u32::MAX);
        assert(m.1[0] <= u32::MAX);
        assert(m.0 =~= seq![i]);
        assert(m.1 =~= seq![i]);
    }
}

/// The mapper is the identity exactly when the mappings whose paths
/// resolve are, in order, field 0 to field 0, field 1 to field 1, and so on.
pub proof fn law_identity_is_fields_in_place(ms: Seq<(Seq<usize>, Seq<usize>)>)
    ensures
        is_identity(plan_of(ms)) <==> forall|k: int|
            0 <= k < resolved(ms).len() ==> #[trigger] resolved(ms)[k] == (seq![k as usize], seq![k as usize]),
{
    lemma_plan_resolved(ms);
    let plan = plan_of(ms);
    let rs = resolved(ms);
    if is_identity(plan) {
        assert forall|k: int| 0 <= k < rs.len() implies #[trigger] rs[k] == (seq![k as usize], seq![k as usize]) by {
            assert(step_of(rs[k]) == Some(plan[k]));
            assert(plan[k] == (StepView::Flat { from: k as usize, to: k as usize }));
            lemma_flat_in_place(rs[k], k as usize);
        }
    }
    if forall|k: int| 0 <= k < rs.len() ==> #[trigger] rs[k] == (seq![k as usize], seq![k as usize]) {
        assert forall|k: int| 0 <= k < plan.len() implies #[trigger] plan[k] == (StepView::Flat { from: k as usize, to: k as usize }) by {
            assert(step_of(rs[k]) == Some(plan[k]));
            assert(rs[k] == (seq![k as usize], seq![k as usize]));
            lemma_flat_in_place(rs[k], k as usize);
        }
    }
}

} // verus!
