use vstd::prelude::*;

verus! {

#[verifier::external_type_specification]
#[verifier::external_body]
pub struct ExTreeBuilder(ptree::builder::TreeBuilder);

#[verifier::external_type_specification]
#[verifier::external_body]
pub struct ExStringItem(ptree::item::StringItem);

/// The nesting depth of the builder's cursor: how many `begin_child` calls
/// have not yet been matched by an `end_child`.
pub uninterp spec fn tree_level(t: ptree::builder::TreeBuilder) -> nat;

/// Relies on ptree's TreeBuilder::new: a fresh builder whose cursor stands at
/// the root item, at nesting depth zero.
#[verifier::external_body]
pub(crate) fn tree_new(text: String) -> (t: ptree::builder::TreeBuilder)
    ensures
        tree_level(t) == 0,
{
    ptree::builder::TreeBuilder::new(text)
}

/// Relies on ptree's TreeBuilder::begin_child: adds a child under the cursor
/// and moves the cursor down to it. The depth counter is a `u32` there, so it
/// must not be asked past that range.
#[verifier::external_body]
pub(crate) fn tree_begin_child(t: &mut ptree::builder::TreeBuilder, text: String)
    requires
        tree_level(*old(t)) + 1 <= u32::MAX,
    ensures
        tree_level(*final(t)) == tree_level(*old(t)) + 1,
{
    t.begin_child(text);
}

/// Relies on ptree's TreeBuilder::end_child: moves the cursor back up to its
/// parent. The cursor must not stand at the root, where the depth counter
/// would underflow.
#[verifier::external_body]
pub(crate) fn tree_end_child(t: &mut ptree::builder::TreeBuilder)
    requires
        tree_level(*old(t)) >= 1,
    ensures
        tree_level(*final(t)) == tree_level(*old(t)) - 1,
{
    t.end_child();
}

/// Relies on ptree's TreeBuilder::build: returns the accumulated tree of
/// labels, leaving the builder as it was.
#[verifier::external_body]
pub(crate) fn tree_build(t: &mut ptree::builder::TreeBuilder) -> (item: ptree::item::StringItem)
    ensures
        tree_level(*final(t)) == tree_level(*old(t)),
{
    t.build()
}

} // verus!
