use vstd::prelude::*;
use crate::bulk_string::BulkStringView;
use crate::commands::del::spec_del;
use crate::commands::get::spec_get;
use crate::commands::ping::spec_ping;
use crate::commands::set::{spec_parse_options_from, spec_set, GetOption, SetOption};
use crate::commands::ResponseView;

verus! {

/// Reading no options leaves the options as they are.
proof fn lemma_options_done(so: SetOption, go: GetOption)
    ensures
        spec_parse_options_from(Seq::<BulkStringView>::empty(), so, go) == Ok::<
            (SetOption, GetOption),
            ResponseView,
        >((so, go)),
{
}

/// A plain two-argument `SET` always writes and replies with the status
/// line.
proof fn lemma_plain_set(store: Map<Seq<u8>, Seq<u8>>, k: Seq<u8>, v: Seq<u8>)
    ensures
        spec_set(store, seq![BulkStringView::Filled(k), BulkStringView::Filled(v)]) == (
            store.insert(k, v),
            ResponseView::SimpleString("OK"@),
        ),
{
    let args = seq![BulkStringView::Filled(k), BulkStringView::Filled(v)];
    assert(args.subrange(2, 2) =~= Seq::<BulkStringView>::empty());
}

/// Law: `SET k v` then `GET k` replies with `v`; a second `SET k v2` then
/// `GET k` replies with `v2`: the last write is the one read back.
pub proof fn lemma_set_then_get(store: Map<Seq<u8>, Seq<u8>>, k: Seq<u8>, v: Seq<u8>, v2: Seq<u8>)
    ensures
        ({
            let first = spec_set(store, seq![BulkStringView::Filled(k), BulkStringView::Filled(v)]);
            let second = spec_set(
                first.0,
                seq![BulkStringView::Filled(k), BulkStringView::Filled(v2)],
            );
            first.1 == ResponseView::SimpleString("OK"@) && spec_get(
                first.0,
                seq![BulkStringView::Filled(k)],
            ) == ResponseView::BulkString(BulkStringView::Filled(v)) && second.1
                == ResponseView::SimpleString("OK"@) && spec_get(
                second.0,
                seq![BulkStringView::Filled(k)],
            ) == ResponseView::BulkString(BulkStringView::Filled(v2))
        }),
{
    lemma_plain_set(store, k, v);
    lemma_plain_set(store.insert(k, v), k, v2);
}

/// Law: `SET k v XX` on the empty store replies with the null scalar and
/// leaves the store without the key.
pub proof fn lemma_set_xx_on_empty(k: Seq<u8>, v: Seq<u8>)
    ensures
        ({
            let empty = Map::<Seq<u8>, Seq<u8>>::empty();
            let args = seq![
                BulkStringView::Filled(k),
                BulkStringView::Filled(v),
                BulkStringView::Filled(seq![88u8, 88u8]),
            ];
            spec_set(empty, args).1 == ResponseView::BulkString(BulkStringView::Null) && spec_set(
                empty,
                args,
            ).0 == empty && !spec_set(empty, args).0.contains_key(k)
        }),
{
    let empty = Map::<Seq<u8>, Seq<u8>>::empty();
    let args = seq![
        BulkStringView::Filled(k),
        BulkStringView::Filled(v),
        BulkStringView::Filled(seq![88u8, 88u8]),
    ];
    let opts = args.subrange(2, 3);
    assert(opts[0] == BulkStringView::Filled(seq![88u8, 88u8]));
    assert(crate::bytes::ascii_upper(seq![88u8, 88u8]) =~= seq![88u8, 88u8]);
    assert(opts.drop_first() =~= Seq::<BulkStringView>::empty());
    lemma_options_done(SetOption::IfExists, GetOption::NotSpecified);
}

/// Law: `SET k v NX` on a store without the key writes `v`; a following
/// `SET k v2 NX` replies with the null scalar and leaves `v` in place: the
/// first write wins.
pub proof fn lemma_set_nx_first_write_wins(
    store: Map<Seq<u8>, Seq<u8>>,
    k: Seq<u8>,
    v: Seq<u8>,
    v2: Seq<u8>,
)
    requires
        !store.contains_key(k),
    ensures
        ({
            let first = spec_set(
                store,
                seq![
                    BulkStringView::Filled(k),
                    BulkStringView::Filled(v),
                    BulkStringView::Filled(seq![78u8, 88u8]),
                ],
            );
            let second = spec_set(
                first.0,
                seq![
                    BulkStringView::Filled(k),
                    BulkStringView::Filled(v2),
                    BulkStringView::Filled(seq![78u8, 88u8]),
                ],
            );
            first.1 == ResponseView::SimpleString("OK"@) && second.1 == ResponseView::BulkString(
                BulkStringView::Null,
            ) && second.0 == first.0 && second.0[k] == v
        }),
{
    let args1 = seq![
        BulkStringView::Filled(k),
        BulkStringView::Filled(v),
        BulkStringView::Filled(seq![78u8, 88u8]),
    ];
    let args2 = seq![
        BulkStringView::Filled(k),
        BulkStringView::Filled(v2),
        BulkStringView::Filled(seq![78u8, 88u8]),
    ];
    assert(crate::bytes::ascii_upper(seq![78u8, 88u8]) =~= seq![78u8, 88u8]);
    assert(args1.subrange(2, 3)[0] == BulkStringView::Filled(seq![78u8, 88u8]));
    assert(args1.subrange(2, 3).drop_first() =~= Seq::<BulkStringView>::empty());
    assert(args2.subrange(2, 3)[0] == BulkStringView::Filled(seq![78u8, 88u8]));
    assert(args2.subrange(2, 3).drop_first() =~= Seq::<BulkStringView>::empty());
    lemma_options_done(SetOption::IfNotExists, GetOption::NotSpecified);
}

/// Law: `SET k v GET` on the empty store replies with the null scalar (there
/// was no previous value); a following `SET k v2 GET` replies with `v`, and
/// the store then holds `v2`.
pub proof fn lemma_set_get_option(k: Seq<u8>, v: Seq<u8>, v2: Seq<u8>)
    ensures
        ({
            let empty = Map::<Seq<u8>, Seq<u8>>::empty();
            let first = spec_set(
                empty,
                seq![
                    BulkStringView::Filled(k),
                    BulkStringView::Filled(v),
                    BulkStringView::Filled(seq![71u8, 69u8, 84u8]),
                ],
            );
            let second = spec_set(
                first.0,
                seq![
                    BulkStringView::Filled(k),
                    BulkStringView::Filled(v2),
                    BulkStringView::Filled(seq![71u8, 69u8, 84u8]),
                ],
            );
            first.1 == ResponseView::BulkString(BulkStringView::Null) && second.1
                == ResponseView::BulkString(BulkStringView::Filled(v)) && second.0[k] == v2
        }),
{
    let empty = Map::<Seq<u8>, Seq<u8>>::empty();
    let args1 = seq![
        BulkStringView::Filled(k),
        BulkStringView::Filled(v),
        BulkStringView::Filled(seq![71u8, 69u8, 84u8]),
    ];
    let args2 = seq![
        BulkStringView::Filled(k),
        BulkStringView::Filled(v2),
        BulkStringView::Filled(seq![71u8, 69u8, 84u8]),
    ];
    assert(crate::bytes::ascii_upper(seq![71u8, 69u8, 84u8]) =~= seq![71u8, 69u8, 84u8]);
    assert(args1.subrange(2, 3)[0] == BulkStringView::Filled(seq![71u8, 69u8, 84u8]));
    assert(args1.subrange(2, 3).drop_first() =~= Seq::<BulkStringView>::empty());
    assert(args2.subrange(2, 3)[0] == BulkStringView::Filled(seq![71u8, 69u8, 84u8]));
    assert(args2.subrange(2, 3).drop_first() =~= Seq::<BulkStringView>::empty());
    lemma_options_done(SetOption::NotSpecified, GetOption::Get);
}

/// Law: `DEL a b a` on a store holding only `a` counts one removal, not
/// two, and leaves the store empty: a key already removed earlier in the
/// same call cannot be removed again.
pub proof fn lemma_del_counts_once(a: Seq<u8>, b: Seq<u8>, va: Seq<u8>)
    ensures
        ({
            let store = Map::<Seq<u8>, Seq<u8>>::empty().insert(a, va);
            let args = seq![
                BulkStringView::Filled(a),
                BulkStringView::Filled(b),
                BulkStringView::Filled(a),
            ];
            spec_del(store, args).1 == ResponseView::Integer(1) && spec_del(store, args).0
                == Map::<Seq<u8>, Seq<u8>>::empty()
        }),
{
    let store = Map::<Seq<u8>, Seq<u8>>::empty().insert(a, va);
    let args = seq![
        BulkStringView::Filled(a),
        BulkStringView::Filled(b),
        BulkStringView::Filled(a),
    ];
    let two = args.subrange(0, 2);
    let one = args.subrange(0, 1);
    let none = Seq::<BulkStringView>::empty();
    assert(args.drop_last() =~= two);
    assert(two.drop_last() =~= one);
    assert(one.drop_last() =~= none);
    let fold0 = crate::commands::del::spec_del_fold(store, none);
    assert(fold0 == (store, 0int));
    assert(store.contains_key(a));
    let fold1 = crate::commands::del::spec_del_fold(store, one);
    assert(fold1 == (store.remove(a), 1int));
    assert(store.remove(a) =~= Map::<Seq<u8>, Seq<u8>>::empty());
    assert(!store.remove(a).contains_key(b));
    let fold2 = crate::commands::del::spec_del_fold(store, two);
    assert(fold2 == (store.remove(a), 1int));
    let fold3 = crate::commands::del::spec_del_fold(store, args);
    assert(fold3 == (store.remove(a), 1int));
    assert(spec_del(store, args).0 == store.remove(a));
    assert(spec_del(store, args).0 =~= Map::<Seq<u8>, Seq<u8>>::empty());
}

/// Law: `PING` with no argument replies `PONG`; with one byte-carrying
/// argument it echoes the argument; with two or more arguments it fails.
pub proof fn lemma_ping(x: Seq<u8>, many: Seq<BulkStringView>)
    requires
        many.len() >= 2,
    ensures
        spec_ping(Seq::empty()) == ResponseView::SimpleString("PONG"@),
        spec_ping(seq![BulkStringView::Filled(x)]) == ResponseView::BulkString(
            BulkStringView::Filled(x),
        ),
        spec_ping(many) == ResponseView::Error("wrong number of arguments"@),
{
}

/// The store after a run of plain `SET k v` executions, serialized in the
/// given order.
pub open spec fn apply_plain_sets(
    store: Map<Seq<u8>, Seq<u8>>,
    k: Seq<u8>,
    vs: Seq<Seq<u8>>,
) -> Map<Seq<u8>, Seq<u8>>
    decreases vs.len(),
{
    if vs.len() == 0 {
        store
    } else {
        spec_set(
            apply_plain_sets(store, k, vs.drop_last()),
            seq![BulkStringView::Filled(k), BulkStringView::Filled(vs.last())],
        ).0
    }
}

/// Law: after any number of `SET k v` executions, serialized in any order
/// by the store's single lock, a `GET k` observes exactly the value of the
/// one that ran last — one of the written values, whole and untorn.
pub proof fn lemma_serialized_sets_get_observes_last(
    store: Map<Seq<u8>, Seq<u8>>,
    k: Seq<u8>,
    vs: Seq<Seq<u8>>,
)
    requires
        vs.len() >= 1,
    ensures
        spec_get(apply_plain_sets(store, k, vs), seq![BulkStringView::Filled(k)])
            == ResponseView::BulkString(BulkStringView::Filled(vs.last())),
        exists|i: int| 0 <= i < vs.len() && vs[i] == vs.last(),
{
    lemma_plain_set(apply_plain_sets(store, k, vs.drop_last()), k, vs.last());
    assert(vs[vs.len() - 1] == vs.last());
}

/// Law: against one store state, `DEL k` removes and counts the key exactly
/// when it is present, and `SET k v NX` writes exactly when it is absent:
/// of the two, serialized by the store's single lock, only one can succeed
/// against the same state.
pub proof fn lemma_del_nx_exclusive(store: Map<Seq<u8>, Seq<u8>>, k: Seq<u8>, v: Seq<u8>)
    ensures
        ({
            let del = spec_del(store, seq![BulkStringView::Filled(k)]);
            let nx = spec_set(
                store,
                seq![
                    BulkStringView::Filled(k),
                    BulkStringView::Filled(v),
                    BulkStringView::Filled(seq![78u8, 88u8]),
                ],
            );
            if store.contains_key(k) {
                del.1 == ResponseView::Integer(1) && nx.1 == ResponseView::BulkString(
                    BulkStringView::Null,
                ) && nx.0 == store
            } else {
                del.1 == ResponseView::Integer(0) && del.0 == store && nx.1
                    == ResponseView::SimpleString("OK"@)
            }
        }),
{
    let args = seq![BulkStringView::Filled(k)];
    assert(args.drop_last() =~= Seq::<BulkStringView>::empty());
    let nx_args = seq![
        BulkStringView::Filled(k),
        BulkStringView::Filled(v),
        BulkStringView::Filled(seq![78u8, 88u8]),
    ];
    assert(crate::bytes::ascii_upper(seq![78u8, 88u8]) =~= seq![78u8, 88u8]);
    assert(nx_args.subrange(2, 3)[0] == BulkStringView::Filled(seq![78u8, 88u8]));
    assert(nx_args.subrange(2, 3).drop_first() =~= Seq::<BulkStringView>::empty());
    lemma_options_done(SetOption::IfNotExists, GetOption::NotSpecified);
    let none = Seq::<BulkStringView>::empty();
    assert(crate::commands::del::spec_del_fold(store, none) == (store, 0int));
    if store.contains_key(k) {
        assert(crate::commands::del::spec_del_fold(store, args) == (store.remove(k), 1int));
    } else {
        assert(crate::commands::del::spec_del_fold(store, args) == (store, 0int));
    }
}

} // verus!
