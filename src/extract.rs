//! The link extractor: walks a whole document, discards ordinary content and
//! collects every link in document order. Every object of the tree is either a
//! reserved shape or a map, so no other kind of node needs a rule.
use vstd::prelude::*;
use crate::decode::{decode_reserved, decode_reserved_map, is_reserved};
use crate::error::DecodeError;
use crate::ipld::{Ipld, IpldV};
use crate::json::{lemma_view_entries, lemma_view_items, Json, JsonV};
use crate::reserved::{key_is, slash};

verus! {

/// The links of a value: depth first, left to right.
pub open spec fn ipld_links(v: IpldV) -> Seq<Seq<u8>>
    decreases v,
{
    match v {
        IpldV::Link(b) => seq![b],
        IpldV::List(vs) => list_links(vs),
        IpldV::Mapping(kvs) => mapping_links(kvs),
        _ => Seq::empty(),
    }
}

pub open spec fn list_links(vs: Seq<IpldV>) -> Seq<Seq<u8>>
    decreases vs,
{
    if vs.len() == 0 {
        Seq::empty()
    } else {
        list_links(vs.drop_last()) + ipld_links(vs.last())
    }
}

pub open spec fn mapping_links(kvs: Seq<(Seq<char>, IpldV)>) -> Seq<Seq<u8>>
    decreases kvs,
{
    if kvs.len() == 0 {
        Seq::empty()
    } else {
        mapping_links(kvs.drop_last()) + ipld_links(kvs.last().1)
    }
}

/// The links that a walk over a JSON tree collects, or the message of the
/// first error in document order. Keys are discarded; a reserved shape is
/// parsed, and a link in it is collected.
pub open spec fn json_links(j: JsonV) -> Result<Seq<Seq<u8>>, Seq<char>>
    decreases j,
{
    match j {
        JsonV::Array(items) => items_links(items),
        JsonV::Object(entries) => if is_reserved(entries) {
            match decode_reserved(entries) {
                Ok(IpldV::Link(b)) => Ok(seq![b]),
                Ok(_) => Ok(Seq::empty()),
                Err(m) => Err(m),
            }
        } else {
            object_links(entries)
        },
        _ => Ok(Seq::empty()),
    }
}

pub open spec fn items_links(items: Seq<JsonV>) -> Result<Seq<Seq<u8>>, Seq<char>>
    decreases items,
{
    if items.len() == 0 {
        Ok(Seq::empty())
    } else {
        match items_links(items.drop_last()) {
            Err(m) => Err(m),
            Ok(ls) => match json_links(items.last()) {
                Ok(l) => Ok(ls + l),
                Err(m) => Err(m),
            },
        }
    }
}

pub open spec fn object_links(entries: Seq<(Seq<char>, JsonV)>) -> Result<
    Seq<Seq<u8>>,
    Seq<char>,
>
    decreases entries,
{
    if entries.len() == 0 {
        Ok(Seq::empty())
    } else {
        match object_links(entries.drop_last()) {
            Err(m) => Err(m),
            Ok(ls) => match json_links(entries.last().1) {
                Ok(l) => Ok(ls + l),
                Err(m) => Err(m),
            },
        }
    }
}

proof fn lemma_items_error_stays(items: Seq<JsonV>, n: int, m: int)
    requires
        0 <= n <= m <= items.len(),
        items_links(items.take(n)) is Err,
    ensures
        items_links(items.take(m)) == items_links(items.take(n)),
    decreases m - n,
{
    if n < m {
        lemma_items_error_stays(items, n, m - 1);
        assert(items.take(m).drop_last() =~= items.take(m - 1));
    }
}

proof fn lemma_entries_error_stays(entries: Seq<(Seq<char>, JsonV)>, n: int, m: int)
    requires
        0 <= n <= m <= entries.len(),
        object_links(entries.take(n)) is Err,
    ensures
        object_links(entries.take(m)) == object_links(entries.take(n)),
    decreases m - n,
{
    if n < m {
        lemma_entries_error_stays(entries, n, m - 1);
        assert(entries.take(m).drop_last() =~= entries.take(m - 1));
    }
}

/// Links in their binary form.
pub open spec fn links_view(links: Seq<Vec<u8>>) -> Seq<Seq<u8>> {
    links.map_values(|b: Vec<u8>| b@)
}

/// An accumulator of links, in the order in which they were met.
#[derive(Debug)]
pub struct ExtractLinks {
    links: Vec<Vec<u8>>,
}

impl View for ExtractLinks {
    type V = Seq<Seq<u8>>;

    closed spec fn view(&self) -> Seq<Seq<u8>> {
        links_view(self.links@)
    }
}

impl ExtractLinks {
    /// An empty accumulator.
    pub fn new() -> (r: Self)
        ensures
            r@ == Seq::<Seq<u8>>::empty(),
    {
        let r = ExtractLinks { links: Vec::new() };
        proof {
            assert(links_view(r.links@) =~= Seq::<Seq<u8>>::empty());
        }
        r
    }

    /// The links collected, in order.
    pub fn into_vec(self) -> (r: Vec<Vec<u8>>)
        ensures
            links_view(r@) == self@,
    {
        self.links
    }

    fn push(&mut self, b: Vec<u8>)
        ensures
            final(self)@ == old(self)@.push(b@),
    {
        self.links.push(b);
        proof {
            assert(links_view(self.links@) =~= links_view(old(self).links@).push(b@));
        }
    }

    /// Walks `j` and appends the links in it, in document order.
    pub fn visit(&mut self, j: &Json) -> (r: Result<(), DecodeError>)
        ensures
            match json_links(j@) {
                Ok(ls) => r is Ok && final(self)@ == old(self)@ + ls,
                Err(m) => r is Err && r->Err_0 is Message && r->Err_0.text() == m,
            },
        decreases j,
    {
        let ghost start = self@;
        match j {
            Json::Array(items) => {
                proof {
                    lemma_view_items(items@);
                }
                let ghost views = Json::view_items(items@);
                let mut i: usize = 0;
                while i < items.len()
                    invariant
                        i <= items.len(),
                        *j is Array,
                        j->Array_0 == *items,
                        views == Json::view_items(items@),
                        views.len() == items@.len(),
                        forall|k: int| 0 <= k < items@.len() ==> #[trigger] views[k] == items@[k]@,
                        items_links(views.take(i as int)) matches Ok(ls) && self@ == start + ls,
                    decreases items.len() - i,
                {
                    proof {
                        assert(decreases_to!(j => j->Array_0@[i as int]));
                        assert(views.take(i + 1).drop_last() =~= views.take(i as int));
                    }
                    let ghost before = self@;
                    match self.visit(&items[i]) {
                        Ok(()) => {
                            proof {
                                let ls = items_links(views.take(i as int))->Ok_0;
                                let l = json_links(views[i as int])->Ok_0;
                                assert(self@ =~= start + (ls + l));
                            }
                        },
                        Err(e) => {
                            proof {
                                lemma_items_error_stays(views, i + 1, views.len() as int);
                                assert(views.take(views.len() as int) =~= views);
                            }
                            return Err(e);
                        },
                    }
                    i = i + 1;
                }
                proof {
                    assert(views.take(items.len() as int) =~= views);
                    assert(self@ =~= start + items_links(views)->Ok_0);
                }
                Ok(())
            },
            Json::Object(entries) => {
                proof {
                    lemma_view_entries(entries@);
                    reveal_strlit("/");
                    assert("/"@ =~= slash());
                }
                if entries.len() > 0 && key_is(&entries[0].0, "/") {
                    return match decode_reserved_map(entries) {
                        Ok(Ipld::Link(b)) => {
                            self.push(b);
                            proof {
                                assert(self@ =~= start + seq![self@.last()]);
                            }
                            Ok(())
                        },
                        Ok(_) => {
                            proof {
                                assert(self@ =~= start + Seq::<Seq<u8>>::empty());
                            }
                            Ok(())
                        },
                        Err(e) => Err(e),
                    };
                }
                let ghost views = Json::view_entries(entries@);
                let mut i: usize = 0;
                while i < entries.len()
                    invariant
                        i <= entries.len(),
                        *j is Object,
                        j->Object_0 == *entries,
                        views == Json::view_entries(entries@),
                        !is_reserved(views),
                        views.len() == entries@.len(),
                        forall|k: int|
                            0 <= k < entries@.len() ==> #[trigger] views[k] == (
                            entries@[k].0@,
                            entries@[k].1@,
                        ),
                        object_links(views.take(i as int)) matches Ok(ls) && self@ == start + ls,
                    decreases entries.len() - i,
                {
                    proof {
                        assert(decreases_to!(j => j->Object_0@[i as int].1));
                        assert(views.take(i + 1).drop_last() =~= views.take(i as int));
                    }
                    match self.visit(&entries[i].1) {
                        Ok(()) => {
                            proof {
                                let ls = object_links(views.take(i as int))->Ok_0;
                                let l = json_links(views[i as int].1)->Ok_0;
                                assert(self@ =~= start + (ls + l));
                            }
                        },
                        Err(e) => {
                            proof {
                                lemma_entries_error_stays(views, i + 1, views.len() as int);
                                assert(views.take(views.len() as int) =~= views);
                            }
                            return Err(e);
                        },
                    }
                    i = i + 1;
                }
                proof {
                    assert(views.take(entries.len() as int) =~= views);
                    assert(self@ =~= start + object_links(views)->Ok_0);
                }
                Ok(())
            },
            _ => {
                proof {
                    assert(self@ =~= start + Seq::<Seq<u8>>::empty());
                }
                Ok(())
            },
        }
    }
}

/// The links of a JSON tree, in document order.
pub fn extract_links(j: &Json) -> (r: Result<Vec<Vec<u8>>, DecodeError>)
    ensures
        match json_links(j@) {
            Ok(ls) => r is Ok && links_view(r->Ok_0@) == ls,
            Err(m) => r is Err && r->Err_0 is Message && r->Err_0.text() == m,
        },
{
    let mut links = ExtractLinks::new();
    match links.visit(j) {
        Ok(()) => {
            proof {
                assert(links@ =~= json_links(j@)->Ok_0);
            }
            Ok(links.into_vec())
        },
        Err(e) => Err(e),
    }
}

} // verus!
