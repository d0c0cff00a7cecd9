//! Track names.
use crate::outside;
use crate::table::Key;
use crate::text::split_all;
use crate::text;
use vstd::prelude::*;
use vstd::slice::slice_to_vec;
use vstd::utf8::encode_utf8;

verus! {

/// The name of a track: its namespace, as the tuple of fields is written on the wire, and the
/// track's own name.
#[derive(Debug)]
pub struct FullTrackName {
    pub namespace: Vec<u8>,
    pub name: Vec<u8>,
}

/// What a track name stands for.
#[verifier::ext_equal]
pub struct TrackName {
    pub namespace: Seq<u8>,
    pub name: Seq<u8>,
}

impl View for FullTrackName {
    type V = TrackName;

    open spec fn view(&self) -> TrackName {
        TrackName { namespace: self.namespace@, name: self.name@ }
    }
}

pub fn same_bytes(a: &Vec<u8>, b: &Vec<u8>) -> (r: bool)
    ensures
        r == (a@ == b@),
{
    if a.len() != b.len() {
        return false;
    }
    let mut i: usize = 0;
    while i < a.len()
        invariant
            a@.len() == b@.len(),
            i <= a@.len(),
            forall|j: int| 0 <= j < i ==> a@[j] == b@[j],
        decreases a@.len() - i,
    {
        if a[i] != b[i] {
            return false;
        }
        i = i + 1;
    }
    assert(a@ =~= b@);
    true
}

pub fn copy_bytes(a: &Vec<u8>) -> (r: Vec<u8>)
    ensures
        r@ == a@,
{
    let mut r: Vec<u8> = Vec::new();
    let mut i: usize = 0;
    while i < a.len()
        invariant
            i <= a@.len(),
            r@ == a@.take(i as int),
        decreases a@.len() - i,
    {
        assert(a@.take(i + 1) =~= a@.take(i as int).push(a@[i as int]));
        r.push(a[i]);
        i = i + 1;
    }
    assert(a@.take(i as int) =~= a@);
    r
}

impl FullTrackName {
    pub fn copy(&self) -> (r: FullTrackName)
        ensures
            r@ == self@,
    {
        FullTrackName { namespace: copy_bytes(&self.namespace), name: copy_bytes(&self.name) }
    }
}

/// What some strings of bytes hold.
pub open spec fn contents(v: Seq<Vec<u8>>) -> Seq<Seq<u8>> {
    v.map_values(|b: Vec<u8>| b@)
}

/// The fields that some pieces of a path stand for; an empty piece stands for none.
pub open spec fn fields_of(pieces: Seq<Seq<char>>) -> Seq<Seq<u8>>
    decreases pieces.len(),
{
    if pieces.len() == 0 {
        Seq::empty()
    } else {
        let before = fields_of(pieces.drop_last());
        if pieces.last().len() == 0 {
            before
        } else {
            before.push(encode_utf8(pieces.last()))
        }
    }
}

/// The fields of a namespace that is given as a path: what stands between the slashes.
pub open spec fn path_fields(path: Seq<char>) -> Seq<Seq<u8>> {
    fields_of(text::split(path, '/'))
}

/// Whether a path gives a namespace that can be written.
pub open spec fn path_fits(path: Seq<char>) -> bool {
    &&& path.len() < usize::MAX
    &&& outside::tuple_fits(path_fields(path))
}

/// The name of a track, by the path of its namespace and its own name.
pub open spec fn track_at(path: Seq<char>, name: Seq<char>) -> TrackName {
    TrackName { namespace: outside::tuple_bytes(path_fields(path)), name: encode_utf8(name) }
}

fn split_path(path: &str) -> (r: Vec<Vec<u8>>)
    requires
        path@.len() < usize::MAX,
    ensures
        contents(r@) == path_fields(path@),
{
    let pieces = split_all(path, '/');
    let ghost all = text::texts(pieces@);
    let mut r: Vec<Vec<u8>> = Vec::new();
    let mut i: usize = 0;
    assert(all.take(0) =~= Seq::<Seq<char>>::empty());
    assert(contents(r@) =~= Seq::<Seq<u8>>::empty());
    while i < pieces.len()
        invariant
            i <= pieces@.len(),
            all == text::texts(pieces@),
            contents(r@) == fields_of(all.take(i as int)),
        decreases pieces@.len() - i,
    {
        assert(all.take(i + 1).drop_last() =~= all.take(i as int));
        assert(all.take(i + 1).last() == pieces@[i as int]@);
        if pieces[i].as_str().unicode_len() > 0 {
            let ghost before = r@;
            let field = slice_to_vec(pieces[i].as_str().as_bytes());
            r.push(field);
            assert(contents(r@) =~= contents(before).push(field@));
        }
        i = i + 1;
    }
    assert(all.take(i as int) =~= all);
    r
}

impl FullTrackName {
    /// A track by the path of its namespace and its own name.
    pub fn from_path(path: &str, name: &str) -> (r: FullTrackName)
        requires
            path_fits(path@),
        ensures
            r@ == track_at(path@, name@),
    {
        let namespace = outside::write_tuple(split_path(path));
        FullTrackName { namespace, name: slice_to_vec(name.as_bytes()) }
    }
}

proof fn lemma_fields_of_halves(a: Seq<Seq<char>>, b: Seq<Seq<char>>)
    ensures
        fields_of(a + b) == fields_of(a) + fields_of(b),
    decreases b.len(),
{
    if b.len() == 0 {
        assert(a + b =~= a);
        assert(fields_of(a) + fields_of(b) =~= fields_of(a));
    } else {
        lemma_fields_of_halves(a, b.drop_last());
        assert((a + b).drop_last() =~= a + b.drop_last());
        assert((a + b).last() == b.last());
        let f = encode_utf8(b.last());
        assert((fields_of(a) + fields_of(b.drop_last())).push(f) =~= fields_of(a) + fields_of(
            b.drop_last(),
        ).push(f));
    }
}

proof fn lemma_path_halves(a: Seq<char>, b: Seq<char>)
    ensures
        path_fields(a + seq!['/'] + b) == path_fields(a) + path_fields(b),
{
    text::lemma_split_halves(a, '/', b);
    lemma_fields_of_halves(text::split(a, '/'), text::split(b, '/'));
}

proof fn lemma_path_of_nothing()
    ensures
        path_fields(Seq::empty()) == Seq::<Seq<u8>>::empty(),
{
    let pieces = text::split(Seq::empty(), '/');
    assert(pieces =~= seq![Seq::<char>::empty()]);
    assert(pieces.drop_last() =~= Seq::<Seq<char>>::empty());
    assert(fields_of(pieces.drop_last()) =~= Seq::<Seq<u8>>::empty());
}

/// Slashes at the ends of a path, and more than one in a row, name no other namespace.
pub proof fn law_extra_slashes_name_the_same(before: Seq<char>, behind: Seq<char>, name: Seq<char>)
    ensures
        track_at(before + seq!['/', '/'] + behind, name) == track_at(
            before + seq!['/'] + behind,
            name,
        ),
        track_at(seq!['/'] + before, name) == track_at(before, name),
        track_at(before + seq!['/'], name) == track_at(before, name),
{
    lemma_path_halves(before + seq!['/'], behind);
    lemma_path_halves(before, behind);
    lemma_path_halves(before, Seq::empty());
    lemma_path_halves(Seq::empty(), before);
    lemma_path_of_nothing();
    assert(before + seq!['/', '/'] + behind =~= before + seq!['/'] + seq!['/'] + behind);
    assert(before + seq!['/'] + Seq::<char>::empty() =~= before + seq!['/']);
    assert(Seq::<char>::empty() + seq!['/'] + before =~= seq!['/'] + before);
    assert(path_fields(before) + Seq::<Seq<u8>>::empty() =~= path_fields(before));
    assert(Seq::<Seq<u8>>::empty() + path_fields(before) =~= path_fields(before));
}

impl Key for FullTrackName {
    type Id = TrackName;

    open spec fn id(&self) -> TrackName {
        self@
    }

    fn same(&self, other: &Self) -> (b: bool) {
        let b = same_bytes(&self.namespace, &other.namespace) && same_bytes(
            &self.name,
            &other.name,
        );
        assert(b == (self@ =~= other@));
        b
    }
}

/// A namespace has a field for each piece of its path: a slash between two paths puts the fields of
/// the one before those of the other, and a piece without a slash is one field, as it is written.
/// The name stands beside them as it is.
pub proof fn law_fields_stand_between_slashes(a: Seq<char>, b: Seq<char>, name: Seq<char>)
    ensures
        path_fields(a + seq!['/'] + b) == path_fields(a) + path_fields(b),
        a.len() > 0 && !a.contains('/') ==> path_fields(a) == seq![encode_utf8(a)],
        path_fields(Seq::empty()).len() == 0,
        track_at(a, name).name == encode_utf8(name),
        track_at(a, name).namespace == outside::tuple_bytes(path_fields(a)),
{
    lemma_path_halves(a, b);
    lemma_path_of_nothing();
    if a.len() > 0 && !a.contains('/') {
        text::lemma_split_of_one(a, '/');
        let pieces = text::split(a, '/');
        let none = Seq::<Seq<char>>::empty();
        assert(pieces.drop_last() =~= none);
        assert(pieces.last() == a);
        assert(fields_of(none) =~= Seq::<Seq<u8>>::empty());
        assert(fields_of(pieces) =~= seq![encode_utf8(a)]);
    }
}

} // verus!
