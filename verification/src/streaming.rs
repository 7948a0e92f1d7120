//! The streaming controller: a periodic state machine that reconciles the
//! chunk store against the viewer's position.
//!
//! Each `Loading` transition runs three ordered phases: reconcile
//! (`chunk_loader`), materialize (`render_loaded`) and sweep
//! (`derender_unloaded`); `loading_transition` runs them as one explicit
//! pipeline. A repeating timer flips the controller between `Loading` and
//! `NotLoading`.

use vstd::prelude::*;

use crate::chunk::Chunk;
use crate::coords::{coord_in_range, in_window, window_contains, Coord, PARTITION_SIZE};
use crate::records::{
    assign_ids, chunk_dims_ok, chunk_records_into, grid_records, rec_group, stamp_ids, Placement,
};
use crate::store::{
    assoc_map, distinct_keys, has_key, lemma_assoc_map_dom, lemma_assoc_map_drop_last,
    lemma_assoc_map_index, lemma_assoc_map_push, lemma_distinct_push, ChunkStore,
};

verus! {

/// The value the store holds for a coordinate, whichever partition holds it
/// (under the partition invariant, at most one does).
pub open spec fn stored_value(mr: Map<Coord, Chunk>, md: Map<Coord, Chunk>, c: Coord) -> Chunk {
    if mr.dom().contains(c) {
        mr[c]
    } else {
        md[c]
    }
}

/// The reconcile phase. Every chunk the store holds ends in the partition
/// the window dictates: inside the visibility window around `center` it is
/// resident, outside it is dormant. No chunk is created or destroyed, no
/// tile content changes, and a coordinate the store never held stays
/// absent — a miss is silently permanent. The result says whether the
/// resident partition changed at all.
pub fn chunk_loader(store: &mut ChunkStore, center: Coord, hr: i32, vr: i32) -> (changed: bool)
    requires
        old(store).inv(),
    ensures
        final(store).inv(),
        forall|c: Coord|
            #![trigger final(store).resident_map().dom().contains(c)]
            #![trigger in_window(center, hr as int, vr as int, c)]
            final(store).resident_map().dom().contains(c) <==> ((old(
                store,
            ).resident_map().dom().contains(c) || old(store).dormant_map().dom().contains(c))
                && in_window(center, hr as int, vr as int, c)),
        forall|c: Coord|
            #![trigger final(store).dormant_map().dom().contains(c)]
            #![trigger in_window(center, hr as int, vr as int, c)]
            final(store).dormant_map().dom().contains(c) <==> ((old(
                store,
            ).resident_map().dom().contains(c) || old(store).dormant_map().dom().contains(c))
                && !in_window(center, hr as int, vr as int, c)),
        forall|c: Coord|
            #![trigger final(store).resident_map().dom().contains(c)]
            final(store).resident_map().dom().contains(c) ==> final(store).resident_map()[c]
                == stored_value(old(store).resident_map(), old(store).dormant_map(), c),
        forall|c: Coord|
            #![trigger final(store).dormant_map().dom().contains(c)]
            final(store).dormant_map().dom().contains(c) ==> final(store).dormant_map()[c]
                == stored_value(old(store).resident_map(), old(store).dormant_map(), c),
        changed <==> final(store).resident_map() != old(store).resident_map(),
{
    let ghost r0 = old(store).resident@;
    let ghost d0 = old(store).dormant@;
    let ghost mr0 = assoc_map(r0);
    let ghost md0 = assoc_map(d0);
    proof {
        lemma_assoc_map_dom(r0);
        lemma_assoc_map_dom(d0);
    }
    let mut promoted = false;

    // Promote: dormant chunks inside the window move to resident.
    let mut keep: Vec<(Coord, Chunk)> = Vec::new();
    proof {
        assert(d0.take(d0.len() as int) =~= d0);
    }
    while store.dormant.len() > 0
        invariant
            store.dormant@.len() <= d0.len(),
            distinct_keys(r0),
            distinct_keys(d0),
            forall|c: Coord| #![auto] !(has_key(r0, c) && has_key(d0, c)),
            mr0 == assoc_map(r0),
            md0 == assoc_map(d0),
            forall|c: Coord| #![auto] mr0.dom().contains(c) <==> has_key(r0, c),
            forall|c: Coord| #![auto] md0.dom().contains(c) <==> has_key(d0, c),
            store.dormant@ == d0.take(store.dormant@.len() as int),
            distinct_keys(store.dormant@),
            distinct_keys(store.resident@),
            distinct_keys(keep@),
            forall|c: Coord| #![auto]
                assoc_map(store.dormant@).dom().contains(c) ==> md0.dom().contains(c),
            forall|c: Coord| #![auto]
                assoc_map(store.dormant@).dom().contains(c) ==> assoc_map(store.dormant@)[c]
                    == md0[c],
            forall|c: Coord| #![auto]
                assoc_map(keep@).dom().contains(c) <==> (md0.dom().contains(c) && !assoc_map(
                    store.dormant@,
                ).dom().contains(c) && !in_window(center, hr as int, vr as int, c)),
            forall|c: Coord| #![auto]
                assoc_map(keep@).dom().contains(c) ==> assoc_map(keep@)[c] == md0[c],
            forall|c: Coord| #![auto]
                assoc_map(store.resident@).dom().contains(c) <==> (mr0.dom().contains(c) || (
                md0.dom().contains(c) && !assoc_map(store.dormant@).dom().contains(c) && in_window(
                    center,
                    hr as int,
                    vr as int,
                    c,
                ))),
            forall|c: Coord| #![auto]
                assoc_map(store.resident@).dom().contains(c) ==> assoc_map(store.resident@)[c]
                    == stored_value(mr0, md0, c),
            !promoted ==> store.resident@ == r0,
            promoted ==> exists|c: Coord| #![auto]
                md0.dom().contains(c) && in_window(center, hr as int, vr as int, c)
                    && !mr0.dom().contains(c),
            !promoted ==> (forall|c: Coord| #![auto]
                md0.dom().contains(c) && !assoc_map(store.dormant@).dom().contains(c)
                    ==> !in_window(center, hr as int, vr as int, c)),
        decreases store.dormant@.len(),
    {
        let ghost dorm_pre = store.dormant@;
        let ghost n = dorm_pre.len() as int;
        proof {
            assert(dorm_pre.last() == d0[n - 1]);
            lemma_assoc_map_index(d0, n - 1);
            lemma_assoc_map_dom(dorm_pre);
            lemma_assoc_map_drop_last(dorm_pre);
            assert(dorm_pre.drop_last() =~= d0.take(n - 1));
            assert((#[trigger] dorm_pre[n - 1]).0 == dorm_pre.last().0);
            assert(has_key(dorm_pre, dorm_pre.last().0));
        }
        let entry = store.dormant.pop().unwrap();
        let ghost key = entry.0;
        proof {
            assert(md0.dom().contains(key) && md0[key] == entry.1);
            assert(!mr0.dom().contains(key)) by {
                assert(has_key(d0, key)) by {
                    assert((#[trigger] d0[n - 1]).0 == key);
                }
                if mr0.dom().contains(key) {
                    assert(has_key(r0, key) && has_key(d0, key));
                }
            }
            assert(!assoc_map(store.resident@).dom().contains(key));
            assert(!assoc_map(keep@).dom().contains(key));
            lemma_assoc_map_dom(store.resident@);
            lemma_assoc_map_dom(keep@);
        }
        if window_contains(center, hr, vr, entry.0) {
            proof {
                lemma_distinct_push(store.resident@, entry);
                lemma_assoc_map_push(store.resident@, entry);
            }
            store.resident.push(entry);
            promoted = true;
        } else {
            proof {
                lemma_distinct_push(keep@, entry);
                lemma_assoc_map_push(keep@, entry);
            }
            keep.push(entry);
        }
        proof {
            assert forall|c: Coord| #![auto]
                assoc_map(store.dormant@).dom().contains(c) implies md0.dom().contains(c)
                    && assoc_map(store.dormant@)[c] == md0[c] by {
                assert(assoc_map(store.dormant@) == assoc_map(dorm_pre).remove(key));
                assert(assoc_map(dorm_pre).dom().contains(c));
                assert(assoc_map(dorm_pre)[c] == md0[c]);
            }
        }
    }
    proof {
        assert(store.dormant@ =~= Seq::<(Coord, Chunk)>::empty());
        assert(forall|c: Coord| #![auto] !assoc_map(store.dormant@).dom().contains(c));
        assert forall|c: Coord| #![auto]
            assoc_map(keep@).dom().contains(c) <==> (md0.dom().contains(c) && !in_window(
                center,
                hr as int,
                vr as int,
                c,
            )) by {
            assert(!assoc_map(store.dormant@).dom().contains(c));
        }
        assert forall|c: Coord| #![auto]
            assoc_map(store.resident@).dom().contains(c) <==> (mr0.dom().contains(c) || (
            md0.dom().contains(c) && in_window(center, hr as int, vr as int, c))) by {
            assert(!assoc_map(store.dormant@).dom().contains(c));
        }
        if !promoted {
            assert forall|c: Coord| #![auto]
                md0.dom().contains(c) implies !in_window(center, hr as int, vr as int, c) by {
                assert(!assoc_map(store.dormant@).dom().contains(c));
            }
        }
    }
    store.dormant = keep;

    let ghost r1 = store.resident@;
    let ghost d1 = store.dormant@;
    let ghost mr1 = assoc_map(r1);
    let ghost md1 = assoc_map(d1);
    proof {
        lemma_assoc_map_dom(r1);
        lemma_assoc_map_dom(d1);
    }
    let mut demoted = false;

    // Demote: resident chunks outside the window move back to dormant.
    let mut keep2: Vec<(Coord, Chunk)> = Vec::new();
    proof {
        assert(r1.take(r1.len() as int) =~= r1);
        assert forall|c: Coord| #![auto]
            md1.dom().contains(c) <==> (md0.dom().contains(c) && !in_window(
                center,
                hr as int,
                vr as int,
                c,
            )) by {
            assert(md1.dom().contains(c) <==> assoc_map(keep@).dom().contains(c));
        }
        assert forall|c: Coord| #![auto]
            mr1.dom().contains(c) <==> (mr0.dom().contains(c) || (md0.dom().contains(c)
                && in_window(center, hr as int, vr as int, c))) by {
            assert(mr1.dom().contains(c) <==> assoc_map(r1).dom().contains(c));
        }
        assert forall|c: Coord| #![auto]
            !(mr1.dom().contains(c) && md1.dom().contains(c)) by {
            if mr1.dom().contains(c) && md1.dom().contains(c) {
                if mr0.dom().contains(c) {
                    assert(has_key(r0, c) && has_key(d0, c));
                }
            }
        }
        if !promoted {
            assert(mr1 == mr0);
        }
    }
    while store.resident.len() > 0
        invariant
            store.resident@.len() <= r1.len(),
            mr1 == assoc_map(r1),
            md1 == assoc_map(d1),
            distinct_keys(r1),
            forall|c: Coord| #![auto] mr1.dom().contains(c) <==> has_key(r1, c),
            forall|c: Coord| #![auto] !(mr1.dom().contains(c) && md1.dom().contains(c)),
            forall|c: Coord| #![auto]
                md1.dom().contains(c) ==> !in_window(center, hr as int, vr as int, c),
            forall|c: Coord| #![auto]
                mr1.dom().contains(c) <==> (mr0.dom().contains(c) || (md0.dom().contains(c)
                    && in_window(center, hr as int, vr as int, c))),
            forall|c: Coord| #![auto]
                mr1.dom().contains(c) ==> mr1[c] == stored_value(mr0, md0, c),
            forall|c: Coord| #![auto]
                md1.dom().contains(c) <==> (md0.dom().contains(c) && !in_window(
                    center,
                    hr as int,
                    vr as int,
                    c,
                )),
            forall|c: Coord| #![auto] md1.dom().contains(c) ==> md1[c] == md0[c],
            !promoted ==> mr1 == mr0,
            promoted ==> exists|c: Coord| #![auto]
                md0.dom().contains(c) && in_window(center, hr as int, vr as int, c)
                    && !mr0.dom().contains(c),
            !promoted ==> (forall|c: Coord| #![auto]
                md0.dom().contains(c) ==> !in_window(center, hr as int, vr as int, c)),
            store.resident@ == r1.take(store.resident@.len() as int),
            distinct_keys(store.resident@),
            distinct_keys(store.dormant@),
            distinct_keys(keep2@),
            forall|c: Coord| #![auto]
                assoc_map(store.resident@).dom().contains(c) ==> mr1.dom().contains(c),
            forall|c: Coord| #![auto]
                assoc_map(store.resident@).dom().contains(c) ==> assoc_map(store.resident@)[c]
                    == mr1[c],
            forall|c: Coord| #![auto]
                assoc_map(keep2@).dom().contains(c) <==> (mr1.dom().contains(c) && !assoc_map(
                    store.resident@,
                ).dom().contains(c) && in_window(center, hr as int, vr as int, c)),
            forall|c: Coord| #![auto]
                assoc_map(keep2@).dom().contains(c) ==> assoc_map(keep2@)[c] == mr1[c],
            forall|c: Coord| #![auto]
                assoc_map(store.dormant@).dom().contains(c) <==> (md1.dom().contains(c) || (
                mr1.dom().contains(c) && !assoc_map(store.resident@).dom().contains(c)
                    && !in_window(center, hr as int, vr as int, c))),
            forall|c: Coord| #![auto]
                assoc_map(store.dormant@).dom().contains(c) ==> assoc_map(store.dormant@)[c] == (
                if md1.dom().contains(c) {
                    md1[c]
                } else {
                    mr1[c]
                }),
            !demoted ==> store.dormant@ == d1,
            demoted ==> exists|c: Coord| #![auto]
                mr1.dom().contains(c) && !in_window(center, hr as int, vr as int, c),
            !demoted ==> (forall|c: Coord| #![auto]
                mr1.dom().contains(c) && !assoc_map(store.resident@).dom().contains(c)
                    ==> in_window(center, hr as int, vr as int, c)),
        decreases store.resident@.len(),
    {
        let ghost res_pre = store.resident@;
        let ghost n = res_pre.len() as int;
        proof {
            assert(res_pre.last() == r1[n - 1]);
            lemma_assoc_map_index(r1, n - 1);
            lemma_assoc_map_dom(res_pre);
            lemma_assoc_map_drop_last(res_pre);
            assert(res_pre.drop_last() =~= r1.take(n - 1));
            assert((#[trigger] res_pre[n - 1]).0 == res_pre.last().0);
            assert(has_key(res_pre, res_pre.last().0));
        }
        let entry = store.resident.pop().unwrap();
        let ghost key = entry.0;
        proof {
            assert(mr1.dom().contains(key) && mr1[key] == entry.1);
            assert(!assoc_map(keep2@).dom().contains(key));
            assert(!assoc_map(store.dormant@).dom().contains(key)) by {
                assert(assoc_map(res_pre).dom().contains(key)) by {
                    assert(has_key(res_pre, key));
                }
            }
            lemma_assoc_map_dom(keep2@);
            lemma_assoc_map_dom(store.dormant@);
        }
        let ghost keep2_pre = keep2@;
        let ghost dorm2_pre = store.dormant@;
        if window_contains(center, hr, vr, entry.0) {
            proof {
                lemma_distinct_push(keep2@, entry);
                lemma_assoc_map_push(keep2@, entry);
            }
            keep2.push(entry);
        } else {
            proof {
                lemma_distinct_push(store.dormant@, entry);
                lemma_assoc_map_push(store.dormant@, entry);
            }
            store.dormant.push(entry);
            demoted = true;
        }
        proof {
            assert forall|c: Coord| #![auto]
                assoc_map(store.resident@).dom().contains(c) implies mr1.dom().contains(c)
                    && assoc_map(store.resident@)[c] == mr1[c] by {
                assert(assoc_map(store.resident@) == assoc_map(res_pre).remove(key));
                assert(assoc_map(res_pre).dom().contains(c));
                assert(assoc_map(res_pre)[c] == mr1[c]);
            }
            if in_window(center, hr as int, vr as int, key) {
                assert(assoc_map(keep2@) == assoc_map(keep2_pre).insert(key, entry.1));
                assert(store.dormant@ == dorm2_pre);
                assert forall|c: Coord| #![auto]
                    assoc_map(keep2@).dom().contains(c) <==> (mr1.dom().contains(c)
                        && !assoc_map(store.resident@).dom().contains(c) && in_window(
                        center,
                        hr as int,
                        vr as int,
                        c,
                    )) by {
                    assert(assoc_map(store.resident@) == assoc_map(res_pre).remove(key));
                    if c == key {
                        assert(assoc_map(keep2@).dom().contains(c));
                    } else {
                        assert(assoc_map(keep2@).dom().contains(c) <==> assoc_map(
                            keep2_pre,
                        ).dom().contains(c));
                        assert(assoc_map(store.resident@).dom().contains(c) <==> assoc_map(
                            res_pre,
                        ).dom().contains(c));
                    }
                }
                assert forall|c: Coord| #![auto]
                    assoc_map(store.dormant@).dom().contains(c) <==> (md1.dom().contains(c) || (
                    mr1.dom().contains(c) && !assoc_map(store.resident@).dom().contains(c)
                        && !in_window(center, hr as int, vr as int, c))) by {
                    assert(assoc_map(store.resident@) == assoc_map(res_pre).remove(key));
                    if c != key {
                        assert(assoc_map(store.resident@).dom().contains(c) <==> assoc_map(
                            res_pre,
                        ).dom().contains(c));
                    }
                }
            } else {
                assert(keep2@ == keep2_pre);
                assert(assoc_map(store.dormant@) == assoc_map(dorm2_pre).insert(key, entry.1));
                assert forall|c: Coord| #![auto]
                    assoc_map(keep2@).dom().contains(c) <==> (mr1.dom().contains(c)
                        && !assoc_map(store.resident@).dom().contains(c) && in_window(
                        center,
                        hr as int,
                        vr as int,
                        c,
                    )) by {
                    assert(assoc_map(store.resident@) == assoc_map(res_pre).remove(key));
                    if c != key {
                        assert(assoc_map(store.resident@).dom().contains(c) <==> assoc_map(
                            res_pre,
                        ).dom().contains(c));
                    }
                }
                assert forall|c: Coord| #![auto]
                    assoc_map(store.dormant@).dom().contains(c) <==> (md1.dom().contains(c) || (
                    mr1.dom().contains(c) && !assoc_map(store.resident@).dom().contains(c)
                        && !in_window(center, hr as int, vr as int, c))) by {
                    assert(assoc_map(store.resident@) == assoc_map(res_pre).remove(key));
                    if c == key {
                        assert(assoc_map(store.dormant@).dom().contains(c));
                    } else {
                        assert(assoc_map(store.dormant@).dom().contains(c) <==> assoc_map(
                            dorm2_pre,
                        ).dom().contains(c));
                        assert(assoc_map(store.resident@).dom().contains(c) <==> assoc_map(
                            res_pre,
                        ).dom().contains(c));
                    }
                }
            }
        }
    }
    proof {
        assert(store.resident@ =~= Seq::<(Coord, Chunk)>::empty());
        assert(forall|c: Coord| #![auto] !assoc_map(store.resident@).dom().contains(c));
        assert forall|c: Coord| #![auto]
            assoc_map(keep2@).dom().contains(c) <==> (mr1.dom().contains(c) && in_window(
                center,
                hr as int,
                vr as int,
                c,
            )) by {
            assert(!assoc_map(store.resident@).dom().contains(c));
        }
        assert forall|c: Coord| #![auto]
            assoc_map(store.dormant@).dom().contains(c) <==> (md1.dom().contains(c) || (
            mr1.dom().contains(c) && !in_window(center, hr as int, vr as int, c))) by {
            assert(!assoc_map(store.resident@).dom().contains(c));
        }
        if !demoted {
            assert forall|c: Coord| #![auto]
                mr1.dom().contains(c) implies in_window(center, hr as int, vr as int, c) by {
                assert(!assoc_map(store.resident@).dom().contains(c));
            }
        }
    }
    let ghost df = store.dormant@;
    let ghost mdf = assoc_map(df);
    store.resident = keep2;
    let ghost rf = store.resident@;
    let ghost mrf = assoc_map(rf);

    let changed = promoted || demoted;
    proof {
        lemma_assoc_map_dom(rf);
        lemma_assoc_map_dom(df);
        assert forall|c: Coord| #![auto]
            mrf.dom().contains(c) <==> ((mr0.dom().contains(c) || md0.dom().contains(c))
                && in_window(center, hr as int, vr as int, c)) by {
            assert(mrf.dom().contains(c) <==> assoc_map(keep2@).dom().contains(c));
            assert(assoc_map(keep2@).dom().contains(c) <==> (mr1.dom().contains(c) && in_window(
                center,
                hr as int,
                vr as int,
                c,
            )));
            assert(mr1.dom().contains(c) <==> (mr0.dom().contains(c) || (md0.dom().contains(c)
                && in_window(center, hr as int, vr as int, c))));
        }
        assert forall|c: Coord| #![auto]
            mdf.dom().contains(c) <==> ((mr0.dom().contains(c) || md0.dom().contains(c))
                && !in_window(center, hr as int, vr as int, c)) by {
            assert(mdf.dom().contains(c) <==> (md1.dom().contains(c) || (mr1.dom().contains(c)
                && !in_window(center, hr as int, vr as int, c))));
            assert(md1.dom().contains(c) <==> (md0.dom().contains(c) && !in_window(
                center,
                hr as int,
                vr as int,
                c,
            )));
            assert(mr1.dom().contains(c) <==> (mr0.dom().contains(c) || (md0.dom().contains(c)
                && in_window(center, hr as int, vr as int, c))));
        }
        assert forall|c: Coord| #![auto]
            mrf.dom().contains(c) implies mrf[c] == stored_value(mr0, md0, c) by {
            assert(assoc_map(keep2@).dom().contains(c));
            assert(assoc_map(keep2@)[c] == mr1[c]);
            assert(mr1.dom().contains(c));
            assert(mr1[c] == stored_value(mr0, md0, c));
        }
        assert forall|c: Coord| #![auto]
            mdf.dom().contains(c) implies mdf[c] == stored_value(mr0, md0, c) by {
            assert(mdf[c] == (if md1.dom().contains(c) {
                md1[c]
            } else {
                mr1[c]
            }));
            if md1.dom().contains(c) {
                assert(md1[c] == md0[c]);
                assert(md0.dom().contains(c));
                if mr0.dom().contains(c) {
                    assert(has_key(r0, c) && has_key(d0, c));
                }
            } else {
                assert(mr1.dom().contains(c));
                assert(mr1[c] == stored_value(mr0, md0, c));
            }
        }
        assert forall|c: Coord| #![auto]
            !(has_key(store.resident@, c) && has_key(store.dormant@, c)) by {
            assert(mrf.dom().contains(c) <==> has_key(rf, c));
            assert(mdf.dom().contains(c) <==> has_key(df, c));
        }
        if promoted {
            let c = choose|c: Coord| #![auto]
                md0.dom().contains(c) && in_window(center, hr as int, vr as int, c)
                    && !mr0.dom().contains(c);
            assert(mrf.dom().contains(c));
            assert(mrf != mr0);
        }
        if demoted {
            let c = choose|c: Coord| #![auto]
                mr1.dom().contains(c) && !in_window(center, hr as int, vr as int, c);
            assert(mr0.dom().contains(c));
            assert(!mrf.dom().contains(c));
            assert(mrf != mr0);
        }
        if !promoted && !demoted {
            assert(mr1 == mr0);
            assert forall|c: Coord| #![auto] mrf.dom().contains(c) <==> mr0.dom().contains(c) by {
                if md0.dom().contains(c) {
                    assert(!in_window(center, hr as int, vr as int, c));
                }
                if mr0.dom().contains(c) {
                    assert(mr1.dom().contains(c));
                    assert(in_window(center, hr as int, vr as int, c));
                }
            }
            assert forall|c: Coord| #![auto]
                mrf.dom().contains(c) implies mrf[c] == mr0[c] by {
                assert(mrf[c] == stored_value(mr0, md0, c));
            }
            assert(mrf =~= mr0);
        }
    }
    changed
}

/// Every chunk of the map stays within the bounds that keep world-position
/// arithmetic in 32-bit range.
pub open spec fn renderable(m: Map<Coord, Chunk>) -> bool {
    forall|c: Coord| #[trigger] m.dom().contains(c) ==> coord_in_range(c) && chunk_dims_ok(m[c])
}

/// The records the materialize phase emits: for each resident entry in
/// order, one record per tile at world position
/// `coordinate * PARTITION_SIZE + local offset`.
pub open spec fn resident_records(entries: Seq<(Coord, Chunk)>) -> Seq<Placement>
    decreases entries.len(),
{
    if entries.len() == 0 {
        Seq::empty()
    } else {
        resident_records(entries.drop_last()) + grid_records(
            entries.last().0.x * PARTITION_SIZE,
            entries.last().0.y * PARTITION_SIZE,
            entries.last().1.tiles@,
        )
    }
}

/// The materialize phase. Runs only when the reconcile phase changed the
/// resident partition (the dirty check): it then re-emits one placement
/// record per resident tile, each stamped with its index in this emission
/// as its id, additively — stale records are left for the sweep phase to
/// delete.
pub fn render_loaded(store: &ChunkStore, changed: bool) -> (records: Vec<Placement>)
    requires
        store.inv(),
        renderable(store.resident_map()),
    ensures
        !changed ==> records@ == Seq::<Placement>::empty(),
        changed ==> records@ == stamp_ids(resident_records(store.resident@)),
{
    let mut out: Vec<Placement> = Vec::new();
    if !changed {
        return out;
    }
    let ghost entries = store.resident@;
    proof {
        assert(resident_records(entries.take(0)) =~= Seq::<Placement>::empty());
    }
    let n = store.resident.len();
    let mut i: usize = 0;
    while i < n
        invariant
            n == entries.len(),
            entries == store.resident@,
            store.inv(),
            renderable(store.resident_map()),
            i <= n,
            out@ == resident_records(entries.take(i as int)),
        decreases n - i,
    {
        let entry = &store.resident[i];
        proof {
            lemma_assoc_map_index(store.resident@, i as int);
            assert(store.resident_map().dom().contains(entry.0));
            assert(chunk_dims_ok(store.resident_map()[entry.0]));
            assert(store.resident_map()[entry.0] == entry.1);
            assert(coord_in_range(entry.0) && chunk_dims_ok(entry.1));
        }
        let bx = entry.0.x * PARTITION_SIZE;
        let by = entry.0.y * PARTITION_SIZE;
        chunk_records_into(&mut out, bx, by, &entry.1);
        proof {
            assert(entries.take(i + 1).drop_last() =~= entries.take(i as int));
            assert(entries.take(i + 1).last() == entries[i as int]);
        }
        i = i + 1;
    }
    proof {
        assert(entries.take(n as int) =~= entries);
    }
    assign_ids(&mut out);
    out
}

/// The sweep phase. Re-derives each record's chunk coordinate from its
/// stamped position and deletes the record if that coordinate is now
/// dormant: exactly the records of evicted chunks disappear, every other
/// record survives in order.
pub fn derender_unloaded(records: &mut Vec<Placement>, store: &ChunkStore)
    ensures
        final(records)@ == old(records)@.filter(
            |p: Placement| !store.dormant_map().dom().contains(rec_group(p)),
        ),
{
    broadcast use Seq::lemma_filter_push;

    let ghost pred = |p: Placement| !store.dormant_map().dom().contains(rec_group(p));
    let mut kept: Vec<Placement> = Vec::new();
    proof {
        reveal(Seq::filter);
        assert(old(records)@.take(0).filter(pred) =~= Seq::<Placement>::empty());
    }
    let n = records.len();
    let mut i: usize = 0;
    while i < n
        invariant
            n == records@.len(),
            records@ == old(records)@,
            i <= n,
            kept@ == old(records)@.take(i as int).filter(
                |p: Placement| !store.dormant_map().dom().contains(rec_group(p)),
            ),
        decreases n - i,
    {
        broadcast use Seq::lemma_filter_push;

        let p = records[i];
        let group = crate::coords::chunk_coord_of(p.coord);
        if !store.dormant_contains(group) {
            kept.push(p);
        }
        proof {
            let pr = |q: Placement| !store.dormant_map().dom().contains(rec_group(q));
            assert(records@.take(i + 1).drop_last() =~= records@.take(i as int));
            assert(records@.take(i + 1).last() == records@[i as int]);
            assert(records@.take(i + 1) == records@.take(i as int).push(records@[i as int]));
            assert(records@.take(i as int).push(records@[i as int]).filter(pr) == if pr(
                records@[i as int],
            ) {
                records@.take(i as int).filter(pr).push(records@[i as int])
            } else {
                records@.take(i as int).filter(pr)
            });
        }
        i = i + 1;
    }
    proof {
        assert(records@.take(n as int) =~= records@);
    }
    *records = kept;
}

/// One full `Loading` transition: the three phases as an explicit ordered
/// pipeline — reconcile the store against the viewer, materialize the
/// resident set if it changed, then sweep records of dormant chunks.
pub fn loading_transition(
    store: &mut ChunkStore,
    records: &mut Vec<Placement>,
    center: Coord,
    hr: i32,
    vr: i32,
)
    requires
        old(store).inv(),
        renderable(old(store).resident_map()),
        renderable(old(store).dormant_map()),
    ensures
        final(store).inv(),
        renderable(final(store).resident_map()),
        renderable(final(store).dormant_map()),
        forall|c: Coord|
            #![trigger final(store).resident_map().dom().contains(c)]
            #![trigger in_window(center, hr as int, vr as int, c)]
            final(store).resident_map().dom().contains(c) <==> ((old(
                store,
            ).resident_map().dom().contains(c) || old(store).dormant_map().dom().contains(c))
                && in_window(center, hr as int, vr as int, c)),
        forall|c: Coord|
            #![trigger final(store).dormant_map().dom().contains(c)]
            #![trigger in_window(center, hr as int, vr as int, c)]
            final(store).dormant_map().dom().contains(c) <==> ((old(
                store,
            ).resident_map().dom().contains(c) || old(store).dormant_map().dom().contains(c))
                && !in_window(center, hr as int, vr as int, c)),
        forall|c: Coord|
            #![trigger final(store).resident_map().dom().contains(c)]
            final(store).resident_map().dom().contains(c) ==> final(store).resident_map()[c]
                == stored_value(old(store).resident_map(), old(store).dormant_map(), c),
        forall|c: Coord|
            #![trigger final(store).dormant_map().dom().contains(c)]
            final(store).dormant_map().dom().contains(c) ==> final(store).dormant_map()[c]
                == stored_value(old(store).resident_map(), old(store).dormant_map(), c),
        final(records)@ == (old(records)@ + (if final(store).resident_map() != old(
            store,
        ).resident_map() {
            stamp_ids(resident_records(final(store).resident@))
        } else {
            Seq::<Placement>::empty()
        })).filter(|p: Placement| !final(store).dormant_map().dom().contains(rec_group(p))),
{
    let ghost mr0 = old(store).resident_map();
    let ghost md0 = old(store).dormant_map();
    let changed = chunk_loader(store, center, hr, vr);
    proof {
        assert forall|c: Coord| #![auto]
            store.resident_map().dom().contains(c) implies coord_in_range(c) && chunk_dims_ok(
            store.resident_map()[c],
        ) by {
            assert(mr0.dom().contains(c) || md0.dom().contains(c));
            if mr0.dom().contains(c) {
                assert(coord_in_range(c) && chunk_dims_ok(mr0[c]));
            } else {
                assert(coord_in_range(c) && chunk_dims_ok(md0[c]));
            }
            assert(store.resident_map()[c] == stored_value(mr0, md0, c));
        }
        assert forall|c: Coord| #![auto]
            store.dormant_map().dom().contains(c) implies coord_in_range(c) && chunk_dims_ok(
            store.dormant_map()[c],
        ) by {
            assert(mr0.dom().contains(c) || md0.dom().contains(c));
            if mr0.dom().contains(c) {
                assert(coord_in_range(c) && chunk_dims_ok(mr0[c]));
            } else {
                assert(coord_in_range(c) && chunk_dims_ok(md0[c]));
            }
            assert(store.dormant_map()[c] == stored_value(mr0, md0, c));
        }
    }
    let mut fresh = render_loaded(store, changed);
    records.append(&mut fresh);
    derender_unloaded(records, store);
}

/// The two states of the streaming controller; a timer tick flips between
/// them, and the three reconciliation phases run on entering `Loading`.
#[derive(Clone, Copy, Debug, PartialEq, Eq, Hash, Structural)]
pub enum ChunkLoading {
    Loading,
    NotLoading,
}

impl Default for ChunkLoading {
    /// The controller starts out not loading.
    fn default() -> (s: Self)
        ensures
            s == ChunkLoading::NotLoading,
    {
        ChunkLoading::NotLoading
    }
}

/// The state the controller flips to on a finished tick.
pub open spec fn flipped(s: ChunkLoading) -> ChunkLoading {
    match s {
        ChunkLoading::Loading => ChunkLoading::NotLoading,
        ChunkLoading::NotLoading => ChunkLoading::Loading,
    }
}

/// The repeating timer that paces the controller, in milliseconds.
#[derive(Clone, Copy, Debug, PartialEq, Eq, Structural)]
pub struct ChunkTimer {
    pub elapsed_ms: u64,
    pub period_ms: u64,
}

/// The period of the stock timer: half a time-unit, as milliseconds.
pub const CHUNK_TIMER_PERIOD_MS: u64 = 500;

impl ChunkTimer {
    /// A positive period no longer than a day, with the elapsed time
    /// strictly inside it.
    pub open spec fn wf(self) -> bool {
        0 < self.period_ms <= 86_400_000 && self.elapsed_ms < self.period_ms
    }
}

impl Default for ChunkTimer {
    /// A fresh repeating timer with the stock half-unit period.
    fn default() -> (t: Self)
        ensures
            t.period_ms == CHUNK_TIMER_PERIOD_MS,
            t.elapsed_ms == 0,
            t.wf(),
    {
        ChunkTimer { elapsed_ms: 0, period_ms: CHUNK_TIMER_PERIOD_MS }
    }
}

/// One scheduler tick of the controller's pacing: advance the repeating
/// timer by the elapsed time; when it finishes, wrap it and flip the
/// state, else keep the state as it is.
pub fn chunk_loader_timer(state: ChunkLoading, timer: &mut ChunkTimer, delta_ms: u64) -> (next:
    ChunkLoading)
    requires
        old(timer).wf(),
        delta_ms <= 86_400_000,
    ensures
        final(timer).wf(),
        final(timer).period_ms == old(timer).period_ms,
        final(timer).elapsed_ms == (old(timer).elapsed_ms + delta_ms) % (old(timer).period_ms as int),
        next == if old(timer).elapsed_ms + delta_ms >= old(timer).period_ms {
            flipped(state)
        } else {
            state
        },
{
    let total = timer.elapsed_ms + delta_ms;
    timer.elapsed_ms = total % timer.period_ms;
    if total >= timer.period_ms {
        match state {
            ChunkLoading::Loading => ChunkLoading::NotLoading,
            ChunkLoading::NotLoading => ChunkLoading::Loading,
        }
    } else {
        state
    }
}

} // verus!
