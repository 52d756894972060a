use vstd::prelude::*;

verus! {

/// The passes of one pipeline run.
#[derive(Clone, Copy, Debug, PartialEq, Eq, Structural)]
pub enum PipelineStage {
    Visibility,
    MonsterAI,
    MapIndexing,
    MeleeCombat,
    Damage,
    ItemPickup,
    ItemUse,
    ItemDrop,
}

/// The fixed order of the passes. The commit of deferred registry changes follows
/// the last of them.
pub open spec fn spec_pipeline() -> Seq<PipelineStage> {
    seq![
        PipelineStage::Visibility,
        PipelineStage::MonsterAI,
        PipelineStage::MapIndexing,
        PipelineStage::MeleeCombat,
        PipelineStage::Damage,
        PipelineStage::ItemPickup,
        PipelineStage::ItemUse,
        PipelineStage::ItemDrop,
    ]
}

/// The passes of one pipeline run, in the order they run.
pub fn pipeline() -> (r: Vec<PipelineStage>)
    ensures
        r@ == spec_pipeline(),
{
    let mut r: Vec<PipelineStage> = Vec::new();
    r.push(PipelineStage::Visibility);
    r.push(PipelineStage::MonsterAI);
    r.push(PipelineStage::MapIndexing);
    r.push(PipelineStage::MeleeCombat);
    r.push(PipelineStage::Damage);
    r.push(PipelineStage::ItemPickup);
    r.push(PipelineStage::ItemUse);
    r.push(PipelineStage::ItemDrop);
    assert(r@ =~= spec_pipeline());
    r
}

/// Each pass runs exactly once per run; indexing runs after monster movement and
/// before combat, so targeting sees this turn's positions; damage runs after combat,
/// so this turn's hits land before the death sweep.
pub proof fn lemma_pipeline_order()
    ensures
        spec_pipeline().len() == 8,
        forall|i: int, j: int| 0 <= i < j < 8 ==> spec_pipeline()[i] != spec_pipeline()[j],
        spec_pipeline()[1] == PipelineStage::MonsterAI,
        spec_pipeline()[2] == PipelineStage::MapIndexing,
        spec_pipeline()[3] == PipelineStage::MeleeCombat,
        spec_pipeline()[4] == PipelineStage::Damage,
{
}

} // verus!
