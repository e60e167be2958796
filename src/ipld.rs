//! The IPLD data model as plain values.
use vstd::prelude::*;

verus! {

/// A value of the IPLD data model.
///
/// A float is held as its JSON number text (with a fraction or an exponent),
/// a link as the binary form of its CID, and a map as its entries in
/// document order.
#[derive(Debug, PartialEq)]
pub enum Ipld {
    Null,
    Bool(bool),
    Integer(i128),
    Float(String),
    String(String),
    Bytes(Vec<u8>),
    List(Vec<Ipld>),
    Mapping(Vec<(String, Ipld)>),
    Link(Vec<u8>),
}

/// The mathematical model of a [`Ipld`].
pub ghost enum IpldV {
    Null,
    Bool(bool),
    Integer(int),
    Float(Seq<char>),
    String(Seq<char>),
    Bytes(Seq<u8>),
    List(Seq<IpldV>),
    Mapping(Seq<(Seq<char>, IpldV)>),
    Link(Seq<u8>),
}

impl Ipld {
    pub open spec fn view_items(items: Seq<Ipld>) -> Seq<IpldV>
        decreases items,
    {
        if items.len() == 0 {
            Seq::empty()
        } else {
            Self::view_items(items.drop_last()).push(items.last().view())
        }
    }

    pub open spec fn view_entries(entries: Seq<(String, Ipld)>) -> Seq<(Seq<char>, IpldV)>
        decreases entries,
    {
        if entries.len() == 0 {
            Seq::empty()
        } else {
            Self::view_entries(entries.drop_last()).push(
                (entries.last().0@, entries.last().1.view()),
            )
        }
    }

}

impl View for Ipld {
    type V = IpldV;

    open spec fn view(&self) -> IpldV
        decreases self,
    {
        match self {
            Ipld::Null => IpldV::Null,
            Ipld::Bool(b) => IpldV::Bool(*b),
            Ipld::Integer(i) => IpldV::Integer(*i as int),
            Ipld::Float(t) => IpldV::Float(t@),
            Ipld::String(s) => IpldV::String(s@),
            Ipld::Bytes(b) => IpldV::Bytes(b@),
            Ipld::List(items) => IpldV::List(Ipld::view_items(items@)),
            Ipld::Mapping(entries) => IpldV::Mapping(Ipld::view_entries(entries@)),
            Ipld::Link(c) => IpldV::Link(c@),
        }
    }
}

pub proof fn lemma_view_items(items: Seq<Ipld>)
    ensures
        Ipld::view_items(items).len() == items.len(),
        forall|k: int| 0 <= k < items.len() ==> #[trigger] Ipld::view_items(items)[k] == items[k]@,
    decreases items.len(),
{
    if items.len() > 0 {
        lemma_view_items(items.drop_last());
        assert(Ipld::view_items(items) == Ipld::view_items(items.drop_last()).push(items.last()@));
    } else {
        assert(Ipld::view_items(items) == Seq::<IpldV>::empty());
    }
}

pub proof fn lemma_view_entries(entries: Seq<(String, Ipld)>)
    ensures
        Ipld::view_entries(entries).len() == entries.len(),
        forall|k: int|
            0 <= k < entries.len() ==> #[trigger] Ipld::view_entries(entries)[k] == (
            entries[k].0@,
            entries[k].1@,
        ),
    decreases entries.len(),
{
    if entries.len() > 0 {
        lemma_view_entries(entries.drop_last());
        assert(Ipld::view_entries(entries) == Ipld::view_entries(entries.drop_last()).push(
            (entries.last().0@, entries.last().1@),
        ));
    } else {
        assert(Ipld::view_entries(entries) == Seq::<(Seq<char>, IpldV)>::empty());
    }
}

} // verus!
