//! The walk shared by the optimized strategies: a directory is enumerated
//! in full before any of its subdirectories is entered, so that the
//! subdirectories can be handed out as independent pieces of work.

use vstd::prelude::*;

use super::legacy::{
    directory_prefix, is_pseudo, lemma_extends_is_transitive, normalize_path, opt_view,
    root_device_after, TraversalContext,
};
use super::rules::{
    child_path, descends, extends, fan_directory, fan_item, fan_out, fan_root, list_item,
    list_items, Tally, Verdict,
};
use super::tree::{DirItem, FsNode, IoFailure};
use crate::services::sink::ScanSink;
use crate::text::joined;

verus! {

/// Handle one item while the directory stored as `dir` is enumerated: a
/// failure is recorded, a file is counted and emitted, a subdirectory is
/// counted. The result tells whether the item is a subdirectory to walk.
pub fn handle_entry<S: ScanSink>(
    item: &DirItem,
    dir: &str,
    depth: u16,
    tally: &mut Tally,
    context: &mut TraversalContext<S>,
) -> (r: Result<bool, std::io::Error>)
    requires
        old(context).wf(),
    ensures
        r matches Ok(walk) ==> final(context).wf() && walk == descends(
            *item,
            depth,
            old(context).rules(),
        ) && (*final(tally), final(context).state()) == list_item(
            *item,
            dir@,
            depth,
            old(context).rules(),
            *old(tally),
            old(context).state(),
        ),
        old(context).sink_view().reliable() ==> r is Ok,
        final(context).same_setup(old(context)),
        extends(old(context).progress(), final(context).progress()),
{
    match item {
        DirItem::Unreadable(failure) => {
            context.record_error(dir, failure)?;
            Ok(false)
        },
        DirItem::Entry(child) => {
            if is_pseudo(child.name.as_str()) {
                return Ok(false);
            }
            match &child.meta {
                Err(failure) => {
                    let path = stored_path(dir, child.name.as_str(), context);
                    context.record_error(path.as_str(), failure)?;
                    Ok(false)
                },
                Ok(meta) => {
                    match context.verdict_on(meta) {
                        Verdict::Skip => Ok(false),
                        Verdict::File => {
                            let size = context.visit_file(dir, child.name.as_str(), meta, depth)?;
                            tally.add_file(size);
                            Ok(false)
                        },
                        Verdict::Directory => {
                            tally.add_dir(0);
                            Ok(context.allows_children_of(depth))
                        },
                    }
                },
            }
        },
    }
}

/// The stored path of the entry `name` of the directory stored as `dir`.
pub fn stored_path<S: ScanSink>(dir: &str, name: &str, context: &TraversalContext<S>) -> (path:
    String)
    ensures
        path@ == child_path(dir@, name@, context.rules().host),
{
    let prefix = directory_prefix(dir);
    let stored = normalize_path(name, context.host());
    joined(prefix.as_str(), stored.as_str())
}

/// Whether an item of a directory at `depth` is a subdirectory to walk.
fn is_walked<S: ScanSink>(item: &DirItem, depth: u16, context: &TraversalContext<S>) -> (r: bool)
    ensures
        r == descends(*item, depth, context.rules()),
{
    match item {
        DirItem::Unreadable(_) => false,
        DirItem::Entry(child) => {
            if is_pseudo(child.name.as_str()) {
                return false;
            }
            match &child.meta {
                Err(_) => false,
                Ok(meta) => match context.verdict_on(meta) {
                    Verdict::Directory => context.allows_children_of(depth),
                    _ => false,
                },
            }
        },
    }
}

/// Walk the directory `node`, stored as `path`: enumerate every item, then
/// walk the subdirectories, then emit the directory's own entry.
pub fn traverse_fanout<S: ScanSink>(
    node: &FsNode,
    path: &str,
    parent: Option<&str>,
    depth: u16,
    device: u64,
    context: &mut TraversalContext<S>,
) -> (r: Result<u64, std::io::Error>)
    requires
        old(context).wf(),
    ensures
        r matches Ok(total) ==> final(context).wf() && (total, final(context).state())
            == fan_directory(
            *node,
            path@,
            opt_view(parent),
            depth,
            device,
            old(context).rules(),
            old(context).state(),
        ),
        old(context).sink_view().reliable() ==> r is Ok,
        final(context).same_setup(old(context)),
        extends(old(context).progress(), final(context).progress()),
    decreases node,
{
    match &node.listing {
        Err(failure) => {
            context.record_error(path, failure)?;
            Ok(0)
        },
        Ok(items) => {
            let mut tally = Tally::new();
            let mut i: usize = 0;
            while i < items.len()
                invariant
                    i <= items.len(),
                    context.wf(),
                    context.same_setup(old(context)),
                    extends(old(context).progress(), context.progress()),
                    (tally, context.state()) == list_items(
                        items@,
                        i as int,
                        path@,
                        depth,
                        old(context).rules(),
                        Tally::zero(),
                        old(context).state(),
                    ),
                decreases items.len() - i,
            {
                let ghost before = context.progress();
                let _ = handle_entry(&items[i], path, depth, &mut tally, context)?;
                proof {
                    lemma_extends_is_transitive(old(context).progress(), before, context.progress());
                }
                i += 1;
            }
            let ghost listed = tally;
            let ghost mid = context.state();
            let mut total = tally.total;
            let mut k: usize = 0;
            while k < items.len()
                invariant
                    k <= items.len(),
                    node.listing == Ok::<Vec<DirItem>, IoFailure>(*items),
                    context.wf(),
                    context.same_setup(old(context)),
                    extends(old(context).progress(), context.progress()),
                    (total, context.state()) == fan_out(
                        items@,
                        k as int,
                        path@,
                        depth,
                        old(context).rules(),
                        listed.total,
                        mid,
                    ),
                decreases items.len() - k,
            {
                let ghost before = context.progress();
                let ghost entry_state = context.state();
                assert(node.listing->Ok_0@[k as int] == items@[k as int]);
                assert(context.rules() == old(context).rules());
                assert(fan_out(items@, k + 1, path@, depth, old(context).rules(), listed.total, mid)
                    == fan_item(
                    items@[k as int],
                    path@,
                    depth,
                    old(context).rules(),
                    total,
                    entry_state,
                ));
                if is_walked(&items[k], depth, context) {
                    match &items[k] {
                        DirItem::Entry(child) => {
                            match &child.meta {
                                Ok(meta) => {
                                    let child_dir = stored_path(
                                        path,
                                        child.name.as_str(),
                                        context,
                                    );
                                    let sub = traverse_fanout(
                                        child,
                                        child_dir.as_str(),
                                        Some(path),
                                        depth + 1,
                                        meta.device,
                                        context,
                                    )?;
                                    total = total.saturating_add(sub);
                                },
                                Err(_) => {},
                            }
                        },
                        DirItem::Unreadable(_) => {},
                    }
                }
                proof {
                    lemma_extends_is_transitive(old(context).progress(), before, context.progress());
                }
                k += 1;
            }
            tally.total = total;
            let ghost before = context.progress();
            let total = context.finish_directory(path, parent, depth, device, &tally)?;
            proof {
                lemma_extends_is_transitive(old(context).progress(), before, context.progress());
            }
            Ok(total)
        },
    }
}

/// Traverse a directory tree from its root, fanning out at every
/// directory. The result is the total of the root.
pub fn traverse_fanout_root<S: ScanSink>(root: &FsNode, context: &mut TraversalContext<S>) -> (r:
    Result<u64, std::io::Error>)
    requires
        old(context).wf(),
    ensures
        r matches Ok(total) ==> final(context).wf() && (total, final(context).state()) == fan_root(
            *root,
            final(context).rules(),
            old(context).state(),
        ),
        old(context).sink_view().reliable() ==> r is Ok,
        final(context).root_device_view() == match root.meta {
            Ok(meta) => root_device_after(
                old(context).options_view().cross_filesystem,
                old(context).root_device_view(),
                meta.device,
            ),
            Err(_) => old(context).root_device_view(),
        },
        final(context).options_view() == old(context).options_view(),
        final(context).max_depth_view() == old(context).max_depth_view(),
        final(context).interval_view() == old(context).interval_view(),
        final(context).host_view() == old(context).host_view(),
        final(context).strategy_view() == old(context).strategy_view(),
        final(context).finalized() == old(context).finalized(),
        final(context).spacing() == old(context).spacing(),
        final(context).sink_view().reliable() == old(context).sink_view().reliable(),
        extends(old(context).progress(), final(context).progress()),
{
    let path = normalize_path(root.name.as_str(), context.host());
    match &root.meta {
        Err(failure) => {
            context.record_error(path.as_str(), failure)?;
            Ok(0)
        },
        Ok(meta) => {
            context.set_root_device_if_absent(meta.device);
            match context.verdict_on(meta) {
                Verdict::Skip => Ok(0),
                Verdict::File => {
                    let size = if context.should_count_file(meta) {
                        context.get_size(meta)
                    } else {
                        0
                    };
                    Ok(size)
                },
                Verdict::Directory => {
                    let ghost before = context.progress();
                    let total = traverse_fanout(
                        root,
                        path.as_str(),
                        None,
                        0,
                        meta.device,
                        context,
                    )?;
                    proof {
                        lemma_extends_is_transitive(
                            old(context).progress(),
                            before,
                            context.progress(),
                        );
                    }
                    Ok(total)
                },
            }
        },
    }
}

} // verus!
