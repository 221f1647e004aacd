//! The persistent map model: a byte-keyed, byte-valued column with atomic
//! batched writes. The chain cores write block records, the canonical-tip
//! pointer and height index entries through it; the node-identity column
//! stores the keypair. Opening an on-disk database is the application
//! shell's concern; the library works on the column it is handed.

use vstd::prelude::*;
use crate::byteops::copy_bytes;
use crate::digest::{digest_of, BlakeDbHasher};
use crate::keys::{derive_public_key, pk_of};
use crate::rng::random_bytes_32;

verus! {

/// One storage column: entries in write order, later writes overriding
/// earlier ones.
pub struct Store {
    pub entries: Vec<(Vec<u8>, Vec<u8>)>,
}

/// The map a write sequence denotes.
pub open spec fn map_of(es: Seq<(Vec<u8>, Vec<u8>)>) -> Map<Seq<u8>, Seq<u8>>
    decreases es.len(),
{
    if es.len() == 0 {
        Map::empty()
    } else {
        map_of(es.drop_last()).insert(es.last().0@, es.last().1@)
    }
}

/// A batch applied to a map, first entry first.
pub open spec fn apply_batch(m: Map<Seq<u8>, Seq<u8>>, b: Seq<(Vec<u8>, Vec<u8>)>) -> Map<Seq<u8>, Seq<u8>>
    decreases b.len(),
{
    if b.len() == 0 {
        m
    } else {
        apply_batch(m.insert(b[0].0@, b[0].1@), b.drop_first())
    }
}

impl View for Store {
    type V = Map<Seq<u8>, Seq<u8>>;

    open spec fn view(&self) -> Map<Seq<u8>, Seq<u8>> {
        map_of(self.entries@)
    }
}

impl Store {
    /// An empty column.
    pub fn new() -> (r: Store)
        ensures
            r@ == Map::<Seq<u8>, Seq<u8>>::empty(),
    {
        Store { entries: Vec::new() }
    }

    /// The value stored under `key`, if any.
    pub fn get(&self, key: &Vec<u8>) -> (r: Option<Vec<u8>>)
        ensures
            match r {
                Option::Some(v) => self@.contains_key(key@) && v@ == self@[key@],
                Option::None => !self@.contains_key(key@),
            },
    {
        let mut i: usize = self.entries.len();
        proof {
            assert(self.entries@.take(i as int) =~= self.entries@);
        }
        while i > 0
            invariant
                0 <= i <= self.entries@.len(),
                self@.contains_key(key@) == map_of(self.entries@.take(i as int)).contains_key(key@),
                self@.contains_key(key@)
                    ==> self@[key@] == map_of(self.entries@.take(i as int))[key@],
            decreases i,
        {
            i = i - 1;
            proof {
                assert(self.entries@.take(i as int + 1).drop_last() =~= self.entries@.take(i as int));
                assert(self.entries@.take(i as int + 1).last() == self.entries@[i as int]);
            }
            if crate::byteops::eq_bytes(&self.entries[i].0, key) {
                return Option::Some(copy_bytes(&self.entries[i].1));
            }
        }
        Option::None
    }

    /// Applies a write batch atomically: the column afterwards denotes the
    /// old map with every entry of the batch written, in order.
    pub fn put_batch(&mut self, batch: Vec<(Vec<u8>, Vec<u8>)>)
        ensures
            final(self)@ == apply_batch(old(self)@, batch@),
    {
        let ghost m0 = self@;
        let ghost b0 = batch@;
        let mut rest = batch;
        while rest.len() > 0
            invariant
                apply_batch(m0, b0) == apply_batch(self@, rest@),
            decreases rest@.len(),
        {
            let ghost rpre = rest@;
            let e = rest.remove(0);
            proof {
                assert(rpre[0] == e);
                assert(rest@ =~= rpre.drop_first());
            }
            let ghost epre = self.entries@;
            self.entries.push(e);
            proof {
                assert(self.entries@.drop_last() =~= epre);
                assert(self.entries@.last() == e);
            }
        }
    }
}

/// The identity-column key of the public node id.
pub open spec fn node_id_key() -> Seq<u8> {
    digest_of(seq![110u8, 111u8, 100u8, 101u8, 95u8, 105u8, 100u8])
}

/// The identity-column key of the secret node key.
pub open spec fn node_skey_key() -> Seq<u8> {
    digest_of(seq![110u8, 111u8, 100u8, 101u8, 95u8, 115u8, 107u8, 101u8, 121u8])
}

/// The ASCII bytes "node_id".
fn node_id_key_bytes() -> (r: Vec<u8>)
    ensures
        r@ == digest_of(seq![110u8, 111u8, 100u8, 101u8, 95u8, 105u8, 100u8]),
        r@ == node_id_key(),
{
    let name: Vec<u8> = vec![110u8, 111u8, 100u8, 101u8, 95u8, 105u8, 100u8];
    proof {
        assert(name@ =~= seq![110u8, 111u8, 100u8, 101u8, 95u8, 105u8, 100u8]);
    }
    let d = BlakeDbHasher::hash(name.as_slice());
    d.bytes
}

/// The ASCII bytes "node_skey".
fn node_skey_key_bytes() -> (r: Vec<u8>)
    ensures
        r@ == node_skey_key(),
{
    let name: Vec<u8> = vec![110u8, 111u8, 100u8, 101u8, 95u8, 115u8, 107u8, 101u8, 121u8];
    proof {
        assert(name@ =~= seq![110u8, 111u8, 100u8, 101u8, 95u8, 115u8, 107u8, 101u8, 121u8]);
    }
    let d = BlakeDbHasher::hash(name.as_slice());
    d.bytes
}

/// Fetches the stored node id, or creates a new identity and stores both
/// keys atomically.
pub fn fetch_node_id(db: &mut Store) -> (r: Vec<u8>)
    requires
        old(db)@.contains_key(node_id_key()) ==> old(db)@[node_id_key()].len() == 32,
    ensures
        r@.len() == 32,
        old(db)@.contains_key(node_id_key()) ==> (
            r@ == old(db)@[node_id_key()] && final(db)@ == old(db)@
        ),
        !old(db)@.contains_key(node_id_key()) ==> exists|s: Seq<u8>|
            s.len() == 32 && r@ == pk_of(s)
                && final(db)@ == old(db)@.insert(node_id_key(), pk_of(s)).insert(node_skey_key(), s),
{
    let id_key = node_id_key_bytes();
    match db.get(&id_key) {
        Option::Some(id) => id,
        Option::None => {
            let sk = random_bytes_32();
            let pk = derive_public_key(&sk);
            let skey_key = node_skey_key_bytes();
            let pk_copy = copy_bytes(&pk);
            let ghost skv = sk@;
            let mut batch: Vec<(Vec<u8>, Vec<u8>)> = Vec::new();
            batch.push((id_key, pk_copy));
            batch.push((skey_key, sk));
            let ghost gb = batch@;
            let ghost m0 = db@;
            db.put_batch(batch);
            proof {
                assert(gb.len() == 2);
                assert(gb.drop_first().len() == 1);
                assert(gb.drop_first()[0] == gb[1]);
                assert(gb.drop_first().drop_first().len() == 0);
                assert(gb[0].0@ == node_id_key());
                assert(gb[0].1@ == pk_of(skv));
                assert(gb[1].0@ == node_skey_key());
                assert(gb[1].1@ == skv);
                let m1 = m0.insert(gb[0].0@, gb[0].1@);
                assert(apply_batch(m0, gb) == apply_batch(m1, gb.drop_first()));
                let gb2 = gb.drop_first();
                assert(apply_batch(m1, gb2) == apply_batch(m1.insert(gb2[0].0@, gb2[0].1@), gb2.drop_first()));
                assert(apply_batch(m1.insert(gb2[0].0@, gb2[0].1@), gb2.drop_first())
                    == m1.insert(gb2[0].0@, gb2[0].1@));
                assert(db@ == m0.insert(node_id_key(), pk_of(skv)).insert(node_skey_key(), skv));
            }
            pk
        }
    }
}

} // verus!
