//! Planning and sequencing of one GPU position-update pass.
//!
//! The library decides; the caller performs. `ComputePass::begin` checks the input and
//! encodes the buffers, and each `PassAction` tells the caller what to do next (acquire
//! a device, dispatch the kernel, or finish with a result). The caller reports back with
//! a `PassEvent`. Positions stay with the caller: the kernel works in single precision,
//! and the pass hands back the result as raw single-precision bit patterns, in atom order.
use vstd::prelude::*;

use crate::error::CoreError;

verus! {

/// Threads per work-group of the position-update kernel.
pub const WORKGROUP_SIZE: u32 = 64;

/// Which variant of the position-update kernel a pass runs.
#[derive(Clone, Copy, Debug, PartialEq, Eq)]
pub enum ProcessKind {
    Relax,
    Minimize,
    Simulate,
}

/// The tag of each kind in the parameter record: 0, 1 and 2.
pub open spec fn kind_tag(k: ProcessKind) -> u32 {
    match k {
        ProcessKind::Relax => 0,
        ProcessKind::Minimize => 1,
        ProcessKind::Simulate => 2,
    }
}

impl ProcessKind {
    pub fn tag(&self) -> (r: u32)
        ensures
            r == kind_tag(*self),
    {
        match self {
            ProcessKind::Relax => 0,
            ProcessKind::Minimize => 1,
            ProcessKind::Simulate => 2,
        }
    }

    /// The kind with the given tag; any other tag is an `InvalidProcessKind`.
    pub fn from_tag(tag: u32) -> (r: Result<ProcessKind, CoreError>)
        ensures
            match r {
                Ok(k) => kind_tag(k) == tag,
                Err(e) => tag > 2 && e == CoreError::InvalidProcessKind,
            },
    {
        if tag == 0 {
            Ok(ProcessKind::Relax)
        } else if tag == 1 {
            Ok(ProcessKind::Minimize)
        } else if tag == 2 {
            Ok(ProcessKind::Simulate)
        } else {
            Err(CoreError::InvalidProcessKind)
        }
    }

    /// The kind named `relax`, `minimize` or `simulate`; any other name is an
    /// `InvalidProcessKind`.
    pub fn from_name(name: &str) -> (r: Result<ProcessKind, CoreError>)
        ensures
            name@ == "relax"@ ==> r == Ok::<ProcessKind, CoreError>(ProcessKind::Relax),
            name@ == "minimize"@ ==> r == Ok::<ProcessKind, CoreError>(ProcessKind::Minimize),
            name@ == "simulate"@ ==> r == Ok::<ProcessKind, CoreError>(ProcessKind::Simulate),
            name@ != "relax"@ && name@ != "minimize"@ && name@ != "simulate"@
                ==> r == Err::<ProcessKind, CoreError>(CoreError::InvalidProcessKind),
    {
        proof {
            reveal_strlit("relax");
            reveal_strlit("minimize");
            reveal_strlit("simulate");
            assert("relax"@ != "minimize"@ && "relax"@ != "simulate"@) by {
                assert("relax"@.len() != "minimize"@.len());
            }
            assert("minimize"@ != "simulate"@) by {
                assert("minimize"@[0] != "simulate"@[0]);
            }
        }
        let n = String::from_str(name);
        if n == String::from_str("relax") {
            Ok(ProcessKind::Relax)
        } else if n == String::from_str("minimize") {
            Ok(ProcessKind::Minimize)
        } else if n == String::from_str("simulate") {
            Ok(ProcessKind::Simulate)
        } else {
            Err(CoreError::InvalidProcessKind)
        }
    }

    /// The file, in the kernel directory, that holds this variant's program.
    pub fn kernel_file(&self) -> (r: &'static str)
        ensures
            *self == ProcessKind::Relax ==> r@ == "relax.wgsl"@,
            *self == ProcessKind::Minimize ==> r@ == "minimize.wgsl"@,
            *self == ProcessKind::Simulate ==> r@ == "simulate.wgsl"@,
    {
        match self {
            ProcessKind::Relax => "relax.wgsl",
            ProcessKind::Minimize => "minimize.wgsl",
            ProcessKind::Simulate => "simulate.wgsl",
        }
    }
}

/// The low byte of a character.
pub open spec fn char_byte(c: char) -> int {
    (c as u32 as int) % 256
}

/// Characters packed one byte each, first character lowest.
pub open spec fn packed(s: Seq<char>) -> int
    decreases s.len(),
{
    if s.len() == 0 {
        0
    } else {
        char_byte(s[0]) + 256 * packed(s.drop_first())
    }
}

/// The fixed-width code of an element symbol: its first four characters, one byte each,
/// little-endian, zero padded. `C` is 67, `Na` is 78 + 97 * 256.
pub open spec fn symbol_code(s: Seq<char>) -> int {
    packed(s.subrange(0, if s.len() < 4 { s.len() as int } else { 4 }))
}

/// `256` to the power `n`.
spec fn byte_span(n: int) -> int
    decreases n,
{
    if n <= 0 {
        1
    } else {
        256 * byte_span(n - 1)
    }
}

/// Computes the fixed-width code of an element symbol.
pub fn symbol_code_of(s: &String) -> (r: u32)
    ensures
        r == symbol_code(s@),
{
    let len = s.as_str().unicode_len();
    let m: usize = if len < 4 {
        len
    } else {
        4
    };
    let mut code: u32 = 0;
    let mut k: usize = m;
    proof {
        reveal_with_fuel(byte_span, 5);
        assert(s@.subrange(m as int, m as int).len() == 0);
    }
    while k > 0
        invariant
            k <= m <= 4,
            m <= s@.len(),
            m == (if s@.len() < 4 { s@.len() as int } else { 4 }),
            code == packed(s@.subrange(k as int, m as int)),
            code < byte_span(m - k),
            byte_span(0) == 1,
            byte_span(1) == 256,
            byte_span(2) == 0x1_0000,
            byte_span(3) == 0x100_0000,
            byte_span(4) == 0x1_0000_0000,
        decreases k,
    {
        k = k - 1;
        let c = s.as_str().get_char(k);
        let b: u32 = (c as u32) % 256;
        proof {
            let t = s@.subrange(k as int, m as int);
            assert(t[0] == c);
            assert(t.drop_first() =~= s@.subrange(k + 1, m as int));
            assert(byte_span(m - k) == 256 * byte_span(m - k - 1));
        }
        code = b + 256 * code;
    }
    code
}

/// Encodes the element symbol of each atom as its fixed-width code.
pub fn encode_types(atom_types: &Vec<String>) -> (r: Vec<u32>)
    ensures
        r@.len() == atom_types@.len(),
        forall|i: int| 0 <= i < r@.len() ==> r@[i] == symbol_code(#[trigger] atom_types@[i]@),
{
    let mut r: Vec<u32> = Vec::new();
    let mut i: usize = 0;
    while i < atom_types.len()
        invariant
            i <= atom_types@.len(),
            r@.len() == i,
            forall|j: int| 0 <= j < i ==> r@[j] == symbol_code(#[trigger] atom_types@[j]@),
        decreases atom_types@.len() - i,
    {
        let code = symbol_code_of(&atom_types[i]);
        r.push(code);
        i = i + 1;
    }
    r
}

/// Every bond joins two atoms of a structure of `n` atoms.
pub open spec fn bonds_within(bonds: Seq<(usize, usize)>, n: int) -> bool {
    forall|k: int| 0 <= k < bonds.len() ==> (#[trigger] bonds[k]).0 < n && bonds[k].1 < n
}

/// The bond index pairs, flattened: `[a0, b0, a1, b1, ...]`.
pub open spec fn flattened(words: Seq<u32>, bonds: Seq<(usize, usize)>) -> bool {
    &&& words.len() == 2 * bonds.len()
    &&& forall|k: int|
        0 <= k < bonds.len() ==> words[2 * k] == (#[trigger] bonds[k]).0 && words[2 * k + 1] == bonds[k].1
}

/// Flattens the bond index pairs of a structure of `n` atoms.
pub fn flatten_bonds(bonds: &Vec<(usize, usize)>, n: u32) -> (r: Vec<u32>)
    requires
        bonds_within(bonds@, n as int),
    ensures
        flattened(r@, bonds@),
{
    let mut r: Vec<u32> = Vec::new();
    let mut k: usize = 0;
    while k < bonds.len()
        invariant
            k <= bonds@.len(),
            bonds_within(bonds@, n as int),
            r@.len() == 2 * k,
            forall|l: int|
                0 <= l < k ==> r@[2 * l] == (#[trigger] bonds@[l]).0 && r@[2 * l + 1] == bonds@[l].1,
        decreases bonds@.len() - k,
    {
        let (a, b) = bonds[k];
        assert(bonds@[k as int].0 < n);
        r.push(a as u32);
        r.push(b as u32);
        k = k + 1;
    }
    r
}

/// The number of work-groups that covers `n` atoms: `ceil(n / 64)`.
pub fn workgroup_count(n: u32) -> (r: u32)
    ensures
        r * WORKGROUP_SIZE >= n,
        r == 0 || (r - 1) * WORKGROUP_SIZE < n,
{
    let r: u64 = (n as u64 + 63) / 64;
    r as u32
}

/// The parameter record that the host hands to the kernel: the step size as the bit
/// pattern of a single-precision number, the iteration bound, and the raw process-kind
/// tag. A pass dispatches the kernel exactly once; the kernel itself runs up to
/// `max_steps` iterations of its update within that dispatch.
#[derive(Clone, Copy, Debug, PartialEq, Eq)]
pub struct AtomPipelineParams {
    pub step_size_bits: u32,
    pub max_steps: u32,
    pub process_type: u32,
}

/// Parameters of a minimization pass.
#[derive(Clone, Copy, Debug, PartialEq, Eq)]
pub struct MinimizationParams {
    pub step_size_bits: u32,
    pub max_steps: u32,
}

/// Parameters of a simulation pass.
#[derive(Clone, Copy, Debug, PartialEq, Eq)]
pub struct SimulationParams {
    pub step_size_bits: u32,
    pub max_steps: u32,
}

impl MinimizationParams {
    /// The record of a pass that runs the minimization kernel.
    pub fn pipeline_params(&self) -> (r: AtomPipelineParams)
        ensures
            r.step_size_bits == self.step_size_bits,
            r.max_steps == self.max_steps,
            r.process_type == kind_tag(ProcessKind::Minimize),
    {
        AtomPipelineParams { step_size_bits: self.step_size_bits, max_steps: self.max_steps, process_type: 1 }
    }
}

impl SimulationParams {
    /// The record of a pass that runs the simulation kernel.
    pub fn pipeline_params(&self) -> (r: AtomPipelineParams)
        ensures
            r.step_size_bits == self.step_size_bits,
            r.max_steps == self.max_steps,
            r.process_type == kind_tag(ProcessKind::Simulate),
    {
        AtomPipelineParams { step_size_bits: self.step_size_bits, max_steps: self.max_steps, process_type: 2 }
    }
}

/// The buffers and sizes of one dispatch, all derived from the input.
#[derive(Debug)]
pub struct DispatchPlan {
    /// Atoms in the structure; positions and results hold three words per atom.
    pub atom_count: u32,
    /// Work-groups of `WORKGROUP_SIZE` threads to dispatch.
    pub workgroups: u32,
    /// One fixed-width code per atom.
    pub type_codes: Vec<u32>,
    /// The bond index pairs, flattened.
    pub bond_indices: Vec<u32>,
    /// The parameter record, uploaded as three words in field order.
    pub params: AtomPipelineParams,
    /// The positions, three single-precision bit patterns per atom, in atom order.
    pub position_words: Vec<u32>,
}

/// The input of a pass is well formed: one type per position, an atom count that the
/// kernel can index, and bonds between atoms of the structure.
pub open spec fn input_ok(position_count: int, type_count: int, bonds: Seq<(usize, usize)>) -> bool {
    &&& position_count == type_count
    &&& position_count <= u32::MAX
    &&& bonds_within(bonds, position_count)
}

/// What the plan of a pass over well-formed input holds.
pub open spec fn plans(
    p: DispatchPlan,
    positions: Seq<(u32, u32, u32)>,
    atom_types: Seq<String>,
    bonds: Seq<(usize, usize)>,
    params: AtomPipelineParams,
) -> bool {
    &&& p.atom_count == atom_types.len()
    &&& p.workgroups * WORKGROUP_SIZE >= p.atom_count
    &&& (p.workgroups == 0 || (p.workgroups - 1) * WORKGROUP_SIZE < p.atom_count)
    &&& p.type_codes@.len() == atom_types.len()
    &&& forall|i: int| 0 <= i < atom_types.len() ==> p.type_codes@[i] == symbol_code(#[trigger] atom_types[i]@)
    &&& flattened(p.bond_indices@, bonds)
    &&& p.params == params
    &&& triples_of(positions, p.position_words@)
}

/// Flattens positions into the words of the position buffer.
pub fn flatten_positions(positions: &Vec<(u32, u32, u32)>) -> (r: Vec<u32>)
    ensures
        triples_of(positions@, r@),
{
    let mut r: Vec<u32> = Vec::new();
    let mut i: usize = 0;
    while i < positions.len()
        invariant
            i <= positions@.len(),
            r@.len() == 3 * i,
            forall|j: int|
                0 <= j < i ==> #[trigger] positions@[j] == (r@[3 * j], r@[3 * j + 1], r@[3 * j + 2]),
        decreases positions@.len() - i,
    {
        let (a, b, c) = positions[i];
        r.push(a);
        r.push(b);
        r.push(c);
        i = i + 1;
    }
    r
}

/// Checks that every bond joins two of the `n` atoms.
fn check_bonds(bonds: &Vec<(usize, usize)>, n: usize) -> (r: bool)
    ensures
        r == bonds_within(bonds@, n as int),
{
    let mut k: usize = 0;
    while k < bonds.len()
        invariant
            k <= bonds@.len(),
            forall|l: int| 0 <= l < k ==> (#[trigger] bonds@[l]).0 < n && bonds@[l].1 < n,
        decreases bonds@.len() - k,
    {
        let (a, b) = bonds[k];
        if a >= n || b >= n {
            return false;
        }
        k = k + 1;
    }
    true
}

/// Where a pass stands.
#[derive(Clone, Copy, Debug, PartialEq, Eq)]
pub enum PassStage {
    /// Waiting for the caller to acquire a GPU context.
    AwaitDevice,
    /// The kernel was dispatched; waiting for the result buffer.
    AwaitResult,
    /// The pass has finished; it takes no more events.
    Finished,
}

/// What the caller reports back to a pass.
#[derive(Debug)]
pub enum PassEvent {
    /// An adapter, device and queue were acquired.
    DeviceReady,
    /// No compatible adapter or device was found.
    DeviceMissing,
    /// The result buffer was mapped; these are its words, in buffer order.
    ResultMapped(Vec<u32>),
    /// Submission or mapping of the result buffer failed.
    MapFailed,
}

/// What a pass asks the caller to do next.
#[derive(Debug)]
pub enum PassAction {
    /// Upload the plan's buffers, dispatch this kernel variant over the plan's
    /// work-groups, copy positions to the host-readable buffer and map it.
    Dispatch(ProcessKind),
    /// Release everything and return this result: per atom, in input order, the three
    /// single-precision coordinate bit patterns.
    Finish(Result<Vec<(u32, u32, u32)>, CoreError>),
    /// The event does not apply in this stage; nothing changes.
    Ignore,
}

/// `v` groups `words` into consecutive triples, in order.
pub open spec fn triples_of(v: Seq<(u32, u32, u32)>, words: Seq<u32>) -> bool {
    &&& words.len() == 3 * v.len()
    &&& forall|i: int|
        0 <= i < v.len() ==> #[trigger] v[i] == (words[3 * i], words[3 * i + 1], words[3 * i + 2])
}

/// The result of a pass whose result buffer for `n` atoms held `words`.
pub open spec fn readback_of(r: Result<Vec<(u32, u32, u32)>, CoreError>, words: Seq<u32>, n: int) -> bool {
    if words.len() == 3 * n {
        r is Ok && triples_of(r->Ok_0@, words)
    } else {
        r == Err::<Vec<(u32, u32, u32)>, CoreError>(CoreError::ReadbackFailure)
    }
}

/// Groups the words of a result buffer into one triple per atom.
pub fn group_words(words: &Vec<u32>, n: u32) -> (r: Vec<(u32, u32, u32)>)
    requires
        words@.len() == 3 * n,
    ensures
        r@.len() == n,
        triples_of(r@, words@),
{
    let mut r: Vec<(u32, u32, u32)> = Vec::new();
    let len = words.len();
    let mut i: usize = 0;
    let mut w: usize = 0;
    while i < n as usize
        invariant
            len == words@.len(),
            words@.len() == 3 * n,
            i <= n,
            w == 3 * i,
            r@.len() == i,
            forall|j: int|
                0 <= j < i ==> #[trigger] r@[j] == (words@[3 * j], words@[3 * j + 1], words@[3 * j + 2]),
        decreases n - i,
    {
        r.push((words[w], words[w + 1], words[w + 2]));
        i = i + 1;
        w = w + 3;
    }
    r
}

/// One position-update pass, from checked input to result.
pub struct ComputePass {
    plan: DispatchPlan,
    stage: PassStage,
}

impl ComputePass {
    pub closed spec fn stage_of(&self) -> PassStage {
        self.stage
    }

    pub closed spec fn plan_of(&self) -> DispatchPlan {
        self.plan
    }

    /// The buffers and sizes that a `Dispatch` uploads and runs.
    pub fn plan(&self) -> (r: &DispatchPlan)
        ensures
            *r == self.plan_of(),
    {
        &self.plan
    }

    pub fn stage(&self) -> (r: PassStage)
        ensures
            r == self.stage_of(),
    {
        self.stage
    }

    /// Checks the input of a pass and plans its buffers. Positions come as three
    /// single-precision bit patterns per atom: the kernel works in single precision.
    /// Malformed input (a type count that differs from the position count, a bond index
    /// outside the structure, more atoms than the kernel can index) is rejected here,
    /// before any GPU resource exists. Otherwise the pass waits for the caller to
    /// acquire a device. The input is only read.
    pub fn begin(
        positions: &Vec<(u32, u32, u32)>,
        atom_types: &Vec<String>,
        bonds: &Vec<(usize, usize)>,
        params: AtomPipelineParams,
    ) -> (r: Result<ComputePass, CoreError>)
        ensures
            r is Ok <==> input_ok(positions@.len() as int, atom_types@.len() as int, bonds@),
            match r {
                Ok(pass) => {
                    &&& pass.stage_of() == PassStage::AwaitDevice
                    &&& plans(pass.plan_of(), positions@, atom_types@, bonds@, params)
                },
                Err(e) => e == CoreError::MalformedInput,
            },
    {
        let position_count = positions.len();
        if position_count != atom_types.len() || position_count > u32::MAX as usize {
            return Err(CoreError::MalformedInput);
        }
        if !check_bonds(bonds, position_count) {
            return Err(CoreError::MalformedInput);
        }
        let n = position_count as u32;
        let plan = DispatchPlan {
            atom_count: n,
            workgroups: workgroup_count(n),
            type_codes: encode_types(atom_types),
            bond_indices: flatten_bonds(bonds, n),
            params,
            position_words: flatten_positions(positions),
        };
        Ok(ComputePass { plan, stage: PassStage::AwaitDevice })
    }

    /// Advances the pass by one event. With a device, the kernel variant is selected by
    /// the tag of the parameter record (an unknown tag ends the pass with
    /// `InvalidProcessKind`); without one, the pass ends with `DeviceUnavailable`. A
    /// mapped result buffer of three words per atom becomes the result, in atom order;
    /// any other size, or a failed mapping, ends the pass with `ReadbackFailure`. An
    /// event that does not apply in the current stage is ignored.
    pub fn on_event(&mut self, event: PassEvent) -> (a: PassAction)
        ensures
            final(self).plan_of() == old(self).plan_of(),
            ({
                let tag = old(self).plan_of().params.process_type;
                let n = old(self).plan_of().atom_count as int;
                match (old(self).stage_of(), event) {
                    (PassStage::AwaitDevice, PassEvent::DeviceReady) => if tag <= 2 {
                        &&& final(self).stage_of() == PassStage::AwaitResult
                        &&& a matches PassAction::Dispatch(k) && kind_tag(k) == tag
                    } else {
                        &&& final(self).stage_of() == PassStage::Finished
                        &&& a matches PassAction::Finish(r)
                            && r == Err::<Vec<(u32, u32, u32)>, CoreError>(CoreError::InvalidProcessKind)
                    },
                    (PassStage::AwaitDevice, PassEvent::DeviceMissing) => {
                        &&& final(self).stage_of() == PassStage::Finished
                        &&& a matches PassAction::Finish(r)
                            && r == Err::<Vec<(u32, u32, u32)>, CoreError>(CoreError::DeviceUnavailable)
                    },
                    (PassStage::AwaitResult, PassEvent::ResultMapped(words)) => {
                        &&& final(self).stage_of() == PassStage::Finished
                        &&& a matches PassAction::Finish(r) && readback_of(r, words@, n)
                    },
                    (PassStage::AwaitResult, PassEvent::MapFailed) => {
                        &&& final(self).stage_of() == PassStage::Finished
                        &&& a matches PassAction::Finish(r)
                            && r == Err::<Vec<(u32, u32, u32)>, CoreError>(CoreError::ReadbackFailure)
                    },
                    _ => {
                        &&& final(self).stage_of() == old(self).stage_of()
                        &&& a is Ignore
                    },
                }
            }),
    {
        match (self.stage, event) {
            (PassStage::AwaitDevice, PassEvent::DeviceReady) => {
                match ProcessKind::from_tag(self.plan.params.process_type) {
                    Ok(k) => {
                        self.stage = PassStage::AwaitResult;
                        PassAction::Dispatch(k)
                    },
                    Err(e) => {
                        self.stage = PassStage::Finished;
                        PassAction::Finish(Err(e))
                    },
                }
            },
            (PassStage::AwaitDevice, PassEvent::DeviceMissing) => {
                self.stage = PassStage::Finished;
                PassAction::Finish(Err(CoreError::DeviceUnavailable))
            },
            (PassStage::AwaitResult, PassEvent::ResultMapped(words)) => {
                self.stage = PassStage::Finished;
                let n = self.plan.atom_count;
                if words.len() as u64 == 3 * (n as u64) {
                    PassAction::Finish(Ok(group_words(&words, n)))
                } else {
                    PassAction::Finish(Err(CoreError::ReadbackFailure))
                }
            },
            (PassStage::AwaitResult, PassEvent::MapFailed) => {
                self.stage = PassStage::Finished;
                PassAction::Finish(Err(CoreError::ReadbackFailure))
            },
            _ => PassAction::Ignore,
        }
    }
}

/// A pass over well-formed input that delivers a result delivers one entry per input
/// position, in input order, whatever its process kind: entry `i` is words `3i`,
/// `3i + 1` and `3i + 2` of the result buffer, which the kernel wrote for atom `i`.
/// Where the kernel leaves the position buffer as uploaded (as with no steps to run),
/// the result is the input positions exactly.
pub proof fn lemma_result_keeps_atoms(
    positions: Seq<(u32, u32, u32)>,
    atom_types: Seq<String>,
    bonds: Seq<(usize, usize)>,
    params: AtomPipelineParams,
    plan: DispatchPlan,
    words: Seq<u32>,
    r: Result<Vec<(u32, u32, u32)>, CoreError>,
)
    requires
        input_ok(positions.len() as int, atom_types.len() as int, bonds),
        plans(plan, positions, atom_types, bonds, params),
        readback_of(r, words, plan.atom_count as int),
        r is Ok,
    ensures
        r->Ok_0@.len() == positions.len(),
        forall|i: int|
            0 <= i < positions.len() ==> #[trigger] r->Ok_0@[i] == (words[3 * i], words[3 * i + 1], words[3
                * i + 2]),
        words == plan.position_words@ ==> r->Ok_0@ == positions,
{
    if words == plan.position_words@ {
        assert(r->Ok_0@ =~= positions);
    }
}

} // verus!
