//! The listing of a user's values.
use crate::merge;
use crate::reply::{self, Reply, ReplyBody, ReplyBodyView, ReplyView};
use crate::sync;
use crate::sync_laws;
use crate::types::config::Config;
use crate::types::data::{DataManifestEntry, DataManifestEntryView, DbFailure};
use crate::types::manifest::{ManifestResponse, ManifestResponseView};
use vstd::prelude::*;

verus! {

/// The sum of the sizes of some entries, if it fits in 64 bits.
pub open spec fn fitting_total(entries: Seq<DataManifestEntryView>) -> Option<int> {
    let total = sync::total_size(entries);
    if i64::MIN <= total <= i64::MAX {
        Some(total)
    } else {
        None
    }
}

/// The sum of the sizes in a listing, if it fits in 64 bits.
pub fn listed_total(entries: &Vec<DataManifestEntry>) -> (r: Option<i64>)
    ensures
        ({
            let total = sync::total_size(sync::manifest_view(entries@));
            &&& r is Some <==> i64::MIN <= total <= i64::MAX
            &&& r matches Some(t) ==> t == total
        }),
        (match r {
            Some(t) => Some(t as int),
            None => None,
        }) == fitting_total(sync::manifest_view(entries@)),
{
    let total: i128 = sync::sum_sizes(entries);
    if total < i64::MIN as i128 || total > i64::MAX as i128 {
        None
    } else {
        Some(total as i64)
    }
}

/// The reply to a request for the listing.
pub open spec fn listing_reply(
    config: Config,
    entries: Result<Seq<DataManifestEntryView>, DbFailure>,
) -> ReplyView {
    match entries {
        Ok(list) => {
            let shown = merge::visible(config, list);
            reply::plain_reply(
                200,
                ReplyBodyView::Manifest(
                    ManifestResponseView {
                        entries: shown,
                        total_size: sync::total_size(shown) as i64,
                    },
                ),
            )
        },
        Err(_) => reply::error_view(500, "Failed to get manifest"@),
    }
}

/// What the result of reading the listing holds.
pub open spec fn listing_view(entries: Result<Vec<DataManifestEntry>, DbFailure>) -> Result<
    Seq<DataManifestEntryView>,
    DbFailure,
> {
    match entries {
        Ok(list) => Ok(sync::manifest_view(list@)),
        Err(e) => Err(e),
    }
}

/// Answers a request for the listing: what a client gets to see of the entries, and
/// the sum of their sizes, which has to fit in 64 bits.
pub fn get_manifest(
    config: &Config,
    entries: Result<Vec<DataManifestEntry>, DbFailure>,
) -> (r: Reply)
    requires
        entries matches Ok(list) ==> i64::MIN <= sync::total_size(
            merge::visible(*config, sync::manifest_view(list@)),
        ) <= i64::MAX,
    ensures
        r@ == (match entries {
            Ok(list) => {
                let shown = merge::visible(*config, sync::manifest_view(list@));
                reply::plain_reply(
                    200,
                    ReplyBodyView::Manifest(
                        ManifestResponseView {
                            entries: shown,
                            total_size: sync::total_size(shown) as i64,
                        },
                    ),
                )
            },
            Err(_) => reply::error_view(500, "Failed to get manifest"@),
        }),
        r@ == listing_reply(*config, listing_view(entries)),
{
    match entries {
        Ok(list) => {
            let entries = merge::keep_visible(config, list);
            let total: i128 = sync::sum_sizes(&entries);
            let body = ManifestResponse { entries, total_size: total as i64 };
            reply::plain(200, ReplyBody::Manifest(body))
        },
        Err(_) => reply::err(500, "Failed to get manifest"),
    }
}

/// The listing shows each entry in use, in order, and says the sum of just their sizes:
/// one more entry adds itself and its size where it is in use, and nothing where it
/// belongs to a data store that is switched off.
pub proof fn law_listing_sums_what_it_shows(
    config: Config,
    list: Seq<DataManifestEntryView>,
    e: DataManifestEntryView,
)
    requires
        i64::MIN <= sync::total_size(merge::visible(config, list)) <= i64::MAX,
        i64::MIN <= sync::total_size(merge::visible(config, list)) + e.size_bytes <= i64::MAX,
    ensures
        listing_reply(config, Ok(seq![])).body == ReplyBodyView::Manifest(
            ManifestResponseView { entries: seq![], total_size: 0 },
        ),
        ({
            let before = listing_reply(config, Ok(list));
            let after = listing_reply(config, Ok(list.push(e)));
            &&& before.status == 200 && before.body is Manifest
            &&& after.status == 200 && after.body is Manifest
            &&& config.datastore_enabled || !"dataStore/"@.is_prefix_of(e.key) ==> {
                &&& after.body->Manifest_0.entries == before.body->Manifest_0.entries.push(e)
                &&& after.body->Manifest_0.total_size == before.body->Manifest_0.total_size
                    + e.size_bytes
            }
            &&& !config.datastore_enabled && "dataStore/"@.is_prefix_of(e.key) ==> after == before
        }),
        listing_reply(config, Err(DbFailure)).status == 500,
{
    merge::law_switched_off_data_store_is_not_seen(config, list, e);
    let shown = merge::visible(config, list);
    assert(merge::visible(config, seq![]) =~= seq![]);
    sync_laws::law_total_is_the_sum_of_the_sizes(shown, e, seq![e]);
    assert(shown + seq![e] =~= shown.push(e));
}

/// The sum of a listing is there just if it fits in 64 bits, and is then the sum of the
/// sizes; the listing of those entries says the same sum.
pub proof fn law_total_is_there_where_it_fits(
    config: Config,
    entries: Seq<DataManifestEntryView>,
    e: DataManifestEntryView,
)
    requires
        config.datastore_enabled,
    ensures
        fitting_total(seq![]) == Some(0int),
        fitting_total(seq![e]) == Some(e.size_bytes as int),
        fitting_total(entries) matches Some(t) ==> i64::MIN <= t <= i64::MAX && listing_reply(
            config,
            Ok(entries),
        ).body == ReplyBodyView::Manifest(ManifestResponseView { entries, total_size: t as i64 }),
        fitting_total(entries) is None ==> sync::total_size(entries) < i64::MIN
            || sync::total_size(entries) > i64::MAX,
{
    sync_laws::law_total_is_the_sum_of_the_sizes(entries, e, seq![]);
}

} // verus!
