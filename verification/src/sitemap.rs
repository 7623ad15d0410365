//! Site map controllers.
//!
//! A site map lists which resource each serve path is backed by.  One
//! controller exists per site map; when the map's asset is created or
//! modified (hot reload), the controller's registrations are rebuilt
//! from the new mapping.  Watching the asset and loading the backing
//! files is the process edge's business: it hands over the decoded map
//! and the handle each backing file is being loaded under.

use vstd::prelude::*;
use vstd::string::StringExecFns;

use crate::assets::SiteMapAsset;
use crate::http_model::HttpRequest;
use crate::serve::{content_type_spec, HttpAssetServeBundle};

verus! {

/// The controller owning one site map's registrations.
pub struct SiteMapController {
    map: u64,
}

impl SiteMapController {
    /// The handle of the site map asset this controller follows.
    pub closed spec fn view_map(&self) -> u64 {
        self.map
    }

    /// The handle of the site map asset this controller follows.
    pub fn map_handle(&self) -> (r: u64)
        ensures
            r == self.view_map(),
    {
        self.map
    }
}

/// One report about a watched site map asset.
#[derive(Clone, Copy, Debug, PartialEq, Eq, Structural)]
pub enum SiteMapEvent {
    /// The asset finished loading for the first time.
    Created(u64),
    /// The asset was reloaded with new content.
    Modified(u64),
    /// The asset is gone.
    Removed(u64),
}

/// The site maps one batch of asset events asks to (re)build: the
/// handle of every created or modified asset, in event order.
pub open spec fn reload_handles(evs: Seq<SiteMapEvent>) -> Seq<u64>
    decreases evs.len(),
{
    if evs.len() == 0 {
        Seq::empty()
    } else {
        reload_handles(evs.drop_last()) + (match evs.last() {
            SiteMapEvent::Created(h) => seq![h],
            SiteMapEvent::Modified(h) => seq![h],
            SiteMapEvent::Removed(_) => Seq::empty(),
        })
    }
}

/// Decides which site maps a batch of asset events requires to be set
/// up anew: every created or modified one, in order; a removal asks
/// for nothing.
pub fn site_map_reloader(events: &Vec<SiteMapEvent>) -> (handles: Vec<u64>)
    ensures
        handles@ == reload_handles(events@),
{
    let mut handles: Vec<u64> = Vec::new();
    let mut i: usize = 0;
    proof {
        assert(events@.take(0) =~= Seq::<SiteMapEvent>::empty());
    }
    while i < events.len()
        invariant
            i <= events@.len(),
            handles@ == reload_handles(events@.take(i as int)),
        decreases events@.len() - i,
    {
        proof {
            assert(events@.take(i + 1).drop_last() =~= events@.take(i as int));
            assert(events@.take(i + 1).last() == events@[i as int]);
        }
        match events[i] {
            SiteMapEvent::Created(h) => handles.push(h),
            SiteMapEvent::Modified(h) => handles.push(h),
            SiteMapEvent::Removed(_) => {},
        }
        i = i + 1;
    }
    proof {
        assert(events@.take(events@.len() as int) =~= events@);
    }
    handles
}

/// Holds of a static-asset registration built for one site map entry:
/// it routes the entry's serve path, starts with an empty mailbox, and
/// serves the given resource handle under the content type of the
/// entry's backing file path.
pub open spec fn bundle_matches_entry(
    b: HttpAssetServeBundle,
    entry: (String, String),
    file_handle: u64,
) -> bool {
    &&& b.handler.path_spec.path_view() == entry.0@
    &&& b.handler.mailbox.view_msgs() == Seq::<(u64, HttpRequest)>::empty()
    &&& b.server.view_data() == file_handle
    &&& b.server.view_mimetype() == content_type_spec(entry.1@)
}

/// Sets up (or re-sets-up) the site map under the given asset handle:
/// makes sure a controller for it exists, and — once the map's content
/// is available — builds one static-asset registration per mapping
/// entry, pairing the entry's serve path with the handle its backing
/// file is being loaded under and the content type of the file's
/// extension.  While the map is still loading, only the controller is
/// set up.  The caller replaces the controller's previous
/// registrations with the returned ones.
pub fn setup_sitemap(
    controllers: &mut Vec<SiteMapController>,
    handle: u64,
    asset: Option<&SiteMapAsset>,
    file_handles: &Vec<u64>,
) -> (bundles: Vec<HttpAssetServeBundle>)
    requires
        asset matches Some(m) ==> file_handles@.len() == m.mapping@.len(),
    ensures
        (exists|i: int|
            0 <= i < old(controllers)@.len() && old(controllers)@[i].view_map() == handle)
            ==> final(controllers)@ == old(controllers)@,
        !(exists|i: int|
            0 <= i < old(controllers)@.len() && old(controllers)@[i].view_map() == handle)
            ==> ({
            let pre = old(controllers)@;
            let post = final(controllers)@;
            &&& post.len() == pre.len() + 1
            &&& post.take(pre.len() as int) == pre
            &&& post.last().view_map() == handle
        }),
        asset is None ==> bundles@.len() == 0,
        asset matches Some(m) ==> bundles@.len() == m.mapping@.len() && forall|i: int|
            0 <= i < bundles@.len() ==> bundle_matches_entry(
                bundles@[i],
                m.mapping@[i],
                file_handles@[i],
            ),
{
    let mut found: bool = false;
    let mut i: usize = 0;
    while i < controllers.len()
        invariant
            i <= controllers@.len(),
            controllers@ == old(controllers)@,
            found <==> exists|j: int| 0 <= j < i && controllers@[j].view_map() == handle,
        decreases controllers@.len() - i,
    {
        if controllers[i].map == handle {
            found = true;
        }
        i = i + 1;
    }
    if !found {
        controllers.push(SiteMapController { map: handle });
    }
    let map = match asset {
        Some(m) => m,
        None => {
            return Vec::new();
        },
    };
    let mut bundles: Vec<HttpAssetServeBundle> = Vec::new();
    let mut k: usize = 0;
    while k < map.mapping.len()
        invariant
            k <= map.mapping@.len(),
            file_handles@.len() == map.mapping@.len(),
            bundles@.len() == k,
            forall|i: int|
                0 <= i < k ==> bundle_matches_entry(
                    bundles@[i],
                    map.mapping@[i],
                    file_handles@[i],
                ),
        decreases map.mapping@.len() - k,
    {
        let serve_path = map.mapping[k].0.clone();
        proof {
            assert(serve_path@ == map.mapping@[k as int].0@);
        }
        let ghost prev = bundles@;
        let bundle = HttpAssetServeBundle::new(
            map.mapping[k].1.as_str(),
            serve_path,
            file_handles[k],
        );
        bundles.push(bundle);
        proof {
            assert forall|i: int| 0 <= i < k + 1 implies bundle_matches_entry(
                bundles@[i],
                map.mapping@[i],
                file_handles@[i],
            ) by {
                if i < k {
                    assert(bundles@[i] == prev[i]);
                } else {
                    assert(bundles@[i] == bundle);
                }
            }
        }
        k = k + 1;
    }
    bundles
}

} // verus!
