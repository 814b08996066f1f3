use vstd::prelude::*;

verus! {

/// An entity of the compiled world, by its index and generation.
#[derive(Clone, Copy, Debug, PartialEq, Eq, Structural)]
pub struct Entity {
    pub id: u32,
    pub generation: i32,
}

/// A link of an entity to another.
#[derive(Clone, Copy, Debug)]
pub enum Link {
    /// The other entity links to this one.
    Incoming(Entity),
    /// This entity links to the other one.
    Outgoing(Entity),
}

/// The entities of the outgoing links of `links`, in order.
pub open spec fn outgoing_of(links: Seq<Link>) -> Seq<Entity>
    decreases links.len(),
{
    if links.len() == 0 {
        Seq::empty()
    } else {
        let rest = outgoing_of(links.drop_last());
        match links.last() {
            Link::Outgoing(e) => rest.push(e),
            Link::Incoming(_) => rest,
        }
    }
}

/// The entities of the incoming links of `links`, in order.
pub open spec fn incoming_of(links: Seq<Link>) -> Seq<Entity>
    decreases links.len(),
{
    if links.len() == 0 {
        Seq::empty()
    } else {
        let rest = incoming_of(links.drop_last());
        match links.last() {
            Link::Incoming(e) => rest.push(e),
            Link::Outgoing(_) => rest,
        }
    }
}

/// The links of an entity to others.
#[derive(Debug)]
pub struct Links {
    links: Vec<Link>,
}

impl View for Links {
    type V = Seq<Link>;

    closed spec fn view(&self) -> Seq<Link> {
        self.links@
    }
}

impl Links {
    /// Returns no links.
    pub fn new() -> (l: Links)
        ensures
            l@ == Seq::<Link>::empty(),
    {
        Links { links: Vec::new() }
    }

    /// Adds an incoming link.
    pub fn insert_incoming(&mut self, incoming: Entity)
        ensures
            final(self)@ == old(self)@.push(Link::Incoming(incoming)),
    {
        self.links.push(Link::Incoming(incoming));
    }

    /// Adds an outgoing link.
    pub fn insert_outgoing(&mut self, outgoing: Entity)
        ensures
            final(self)@ == old(self)@.push(Link::Outgoing(outgoing)),
    {
        self.links.push(Link::Outgoing(outgoing));
    }

    /// Returns the links, in the order they were added.
    pub fn iter_links(&self) -> (links: &Vec<Link>)
        ensures
            links@ == self@,
    {
        &self.links
    }

    /// Returns the entities this one links to, in order.
    pub fn outgoing(&self) -> (out: Vec<Entity>)
        ensures
            out@ == outgoing_of(self@),
    {
        let mut out: Vec<Entity> = Vec::new();
        let mut i: usize = 0;
        while i < self.links.len()
            invariant
                i <= self.links@.len(),
                out@ == outgoing_of(self.links@.take(i as int)),
            decreases self.links@.len() - i,
        {
            proof {
                assert(self.links@.take(i + 1).drop_last() =~= self.links@.take(i as int));
            }
            match self.links[i] {
                Link::Outgoing(e) => out.push(e),
                Link::Incoming(_) => {},
            }
            i = i + 1;
        }
        assert(self.links@.take(self.links@.len() as int) =~= self.links@);
        out
    }

    /// Returns the entities that link to this one, in order.
    pub fn incoming(&self) -> (out: Vec<Entity>)
        ensures
            out@ == incoming_of(self@),
    {
        let mut out: Vec<Entity> = Vec::new();
        let mut i: usize = 0;
        while i < self.links.len()
            invariant
                i <= self.links@.len(),
                out@ == incoming_of(self.links@.take(i as int)),
            decreases self.links@.len() - i,
        {
            proof {
                assert(self.links@.take(i + 1).drop_last() =~= self.links@.take(i as int));
            }
            match self.links[i] {
                Link::Incoming(e) => out.push(e),
                Link::Outgoing(_) => {},
            }
            i = i + 1;
        }
        assert(self.links@.take(self.links@.len() as int) =~= self.links@);
        out
    }
}

} // verus!
