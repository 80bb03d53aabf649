//! Card resolution: reading image locations out of a card-data response.
//!
//! The card database answers a lookup with a JSON document.  A
//! single-faced card carries one `image_uris` object; a double-faced
//! card carries a `card_faces` array whose members each carry their own
//! `image_uris` object.  The resolver picks the image reference under a
//! chosen variant key (`png`) and yields a front and, for a double-faced
//! card, a back location.

use crate::parse::copy_range;
use vstd::prelude::*;

verus! {

/// A JSON value, holding as plain values what the resolver reads:
/// strings, arrays and objects.  A number's magnitude is never read
/// here, so `Num` carries no payload.
pub enum Json {
    Null,
    Bool(bool),
    Num,
    Str(Vec<u8>),
    Arr(Vec<Json>),
    Obj(Vec<(Vec<u8>, Json)>),
}

/// The image locations resolved for one card.  `front` may be absent
/// (the card resolved but offered no image; a placeholder is used
/// downstream); `back` is present only for a double-faced card.
#[derive(Debug)]
pub struct CardImageUrls {
    pub front: Option<Vec<u8>>,
    pub back: Option<Vec<u8>>,
}

impl View for CardImageUrls {
    type V = (Option<Seq<u8>>, Option<Seq<u8>>);

    open spec fn view(&self) -> (Option<Seq<u8>>, Option<Seq<u8>>) {
        (
            match self.front {
                Option::Some(ref v) => Option::Some(v@),
                Option::None => Option::None,
            },
            match self.back {
                Option::Some(ref v) => Option::Some(v@),
                Option::None => Option::None,
            },
        )
    }
}

/// Why a response yielded no image locations.
#[derive(Clone, Copy, Debug, PartialEq, Eq, Structural)]
pub enum ResolveError {
    /// An image reference under the variant key is not a string.
    ImageUrlNotString,
    /// A card face carries no `image_uris` object.
    FaceWithoutImageUris,
    /// Neither an `image_uris` object nor a `card_faces` array is present.
    ImageUrlsNotFound,
}

/// The bytes of the key `"image_uris"`.
pub open spec fn image_uris_key() -> Seq<u8> {
    seq![105u8, 109u8, 97u8, 103u8, 101u8, 95u8, 117u8, 114u8, 105u8, 115u8]
}

/// The bytes of the key `"card_faces"`.
pub open spec fn card_faces_key() -> Seq<u8> {
    seq![99u8, 97u8, 114u8, 100u8, 95u8, 102u8, 97u8, 99u8, 101u8, 115u8]
}

/// The value under the first entry of `entries` whose key is `key`.
pub open spec fn obj_get(entries: Seq<(Vec<u8>, Json)>, key: Seq<u8>) -> Option<Json>
    decreases entries.len(),
{
    if entries.len() == 0 {
        Option::None
    } else if entries[0].0@ == key {
        Option::Some(entries[0].1)
    } else {
        obj_get(entries.drop_first(), key)
    }
}

/// The value under `key` when `j` is an object holding it.
pub open spec fn get_key(j: Json, key: Seq<u8>) -> Option<Json> {
    match j {
        Json::Obj(es) => obj_get(es@, key),
        _ => Option::None,
    }
}

/// What one member of a `card_faces` array contributes: its image
/// reference under the variant key, nothing when its `image_uris`
/// object lacks that key, a failure when it has no `image_uris` object
/// or the reference is not a string.
pub open spec fn face_url(face: Json, key: Seq<u8>) -> Result<Option<Seq<u8>>, ResolveError> {
    match get_key(face, image_uris_key()) {
        Option::Some(Json::Obj(es)) => match obj_get(es@, key) {
            Option::Some(Json::Str(s)) => Result::Ok(Option::Some(s@)),
            Option::Some(_) => Result::Err(ResolveError::ImageUrlNotString),
            Option::None => Result::Ok(Option::None),
        },
        _ => Result::Err(ResolveError::FaceWithoutImageUris),
    }
}

/// The image references collected from a `card_faces` array, in face
/// order; the first failing face fails the collection.
pub open spec fn face_urls(faces: Seq<Json>, key: Seq<u8>) -> Result<Seq<Seq<u8>>, ResolveError>
    decreases faces.len(),
{
    if faces.len() == 0 {
        Result::Ok(Seq::empty())
    } else {
        match face_url(faces[0], key) {
            Result::Ok(Option::Some(u)) => match face_urls(faces.drop_first(), key) {
                Result::Ok(urls) => Result::Ok(seq![u] + urls),
                Result::Err(e) => Result::Err(e),
            },
            Result::Ok(Option::None) => face_urls(faces.drop_first(), key),
            Result::Err(e) => Result::Err(e),
        }
    }
}

/// What the resolver extracts from a response document.
///
/// An `image_uris` object holding the variant key yields that reference
/// as the single front image.  Otherwise a `card_faces` array is read:
/// exactly two collected references mean front and back, any other
/// count means the first reference alone (or no image at all when none
/// was collected).  A document with neither shape is a resolution
/// failure.
pub open spec fn extract_spec(data: Json, key: Seq<u8>) -> Result<
    (Option<Seq<u8>>, Option<Seq<u8>>),
    ResolveError,
> {
    let direct = match get_key(data, image_uris_key()) {
        Option::Some(Json::Obj(es)) => obj_get(es@, key),
        _ => Option::None,
    };
    match direct {
        Option::Some(Json::Str(s)) => Result::Ok((Option::Some(s@), Option::None)),
        Option::Some(_) => Result::Err(ResolveError::ImageUrlNotString),
        Option::None => match get_key(data, card_faces_key()) {
            Option::Some(Json::Arr(faces)) => match face_urls(faces@, key) {
                Result::Ok(urls) => if urls.len() == 2 {
                    Result::Ok((Option::Some(urls[0]), Option::Some(urls[1])))
                } else if urls.len() >= 1 {
                    Result::Ok((Option::Some(urls[0]), Option::None))
                } else {
                    Result::Ok((Option::None, Option::None))
                },
                Result::Err(e) => Result::Err(e),
            },
            _ => Result::Err(ResolveError::ImageUrlsNotFound),
        },
    }
}

#[verifier::external_type_specification]
#[verifier::external_body]
pub struct ExValue(serde_json::Value);

/// What a `serde_json::Value` holds, read as the library's own tree:
/// the same value always reads as the same tree.
pub uninterp spec fn json_view(v: serde_json::Value) -> Json;

/// Relies on `serde_json::Value`'s public variants: each is carried
/// one-for-one into the library's own tree, named `json_view`.  Object
/// keys and strings are taken as their UTF-8 bytes; a number's
/// magnitude is dropped, since the resolver never reads one.
#[verifier::external_body]
fn json_of_value(v: &serde_json::Value) -> (r: Json)
    ensures
        r == json_view(*v),
{
    match v {
        serde_json::Value::Null => Json::Null,
        serde_json::Value::Bool(b) => Json::Bool(*b),
        serde_json::Value::Number(_) => Json::Num,
        serde_json::Value::String(s) => Json::Str(s.clone().into_bytes()),
        serde_json::Value::Array(a) => Json::Arr(a.iter().map(json_of_value).collect()),
        serde_json::Value::Object(o) => Json::Obj(
            o.iter().map(|(k, w)| (k.clone().into_bytes(), json_of_value(w))).collect(),
        ),
    }
}

/// Resolves a card-data response held as a `serde_json` document:
/// reads it as the library's own tree and extracts the image locations
/// from it.  The outcome is exactly what `extract_spec` yields on the
/// document read as that tree.
pub fn resolve_value(data: &serde_json::Value, key: &Vec<u8>) -> (r: Result<
    CardImageUrls,
    ResolveError,
>)
    ensures
        match r {
            Result::Ok(c) => extract_spec(json_view(*data), key@) == Result::<
                (Option<Seq<u8>>, Option<Seq<u8>>),
                ResolveError,
            >::Ok(c@),
            Result::Err(e) => extract_spec(json_view(*data), key@) == Result::<
                (Option<Seq<u8>>, Option<Seq<u8>>),
                ResolveError,
            >::Err(e),
        },
{
    let tree = json_of_value(data);
    extract_card_urls(&tree, key)
}

fn bytes_eq(a: &Vec<u8>, b: &Vec<u8>) -> (r: bool)
    ensures
        r == (a@ == b@),
{
    if a.len() != b.len() {
        assert(a@ != b@);
        return false;
    }
    let mut i: usize = 0;
    while i < a.len()
        invariant
            i <= a@.len(),
            a@.len() == b@.len(),
            forall|k: int| 0 <= k < i ==> a@[k] == b@[k],
        decreases a@.len() - i,
    {
        if a[i] != b[i] {
            assert(a@ != b@);
            return false;
        }
        i = i + 1;
    }
    assert(a@ =~= b@);
    true
}

fn image_uris_key_vec() -> (r: Vec<u8>)
    ensures
        r@ == image_uris_key(),
{
    let mut v: Vec<u8> = Vec::new();
    v.push(105);
    v.push(109);
    v.push(97);
    v.push(103);
    v.push(101);
    v.push(95);
    v.push(117);
    v.push(114);
    v.push(105);
    v.push(115);
    assert(v@ =~= image_uris_key());
    v
}

fn card_faces_key_vec() -> (r: Vec<u8>)
    ensures
        r@ == card_faces_key(),
{
    let mut v: Vec<u8> = Vec::new();
    v.push(99);
    v.push(97);
    v.push(114);
    v.push(100);
    v.push(95);
    v.push(102);
    v.push(97);
    v.push(99);
    v.push(101);
    v.push(115);
    assert(v@ =~= card_faces_key());
    v
}

/// Looks `key` up among the entries of an object, front first.
fn obj_get_exec<'a>(entries: &'a Vec<(Vec<u8>, Json)>, key: &Vec<u8>) -> (r: Option<&'a Json>)
    ensures
        match r {
            Option::Some(j) => obj_get(entries@, key@) == Option::Some(*j),
            Option::None => obj_get(entries@, key@) is None,
        },
{
    let mut i: usize = 0;
    assert(entries@.subrange(0, entries@.len() as int) =~= entries@);
    while i < entries.len()
        invariant
            i <= entries@.len(),
            obj_get(entries@, key@) == obj_get(entries@.subrange(i as int, entries@.len() as int), key@),
        decreases entries@.len() - i,
    {
        let ghost rest: Seq<(Vec<u8>, Json)> = entries@.subrange(i as int, entries@.len() as int);
        assert(rest[0] == entries@[i as int]);
        assert(rest.drop_first() =~= entries@.subrange((i + 1) as int, entries@.len() as int));
        if bytes_eq(&entries[i].0, key) {
            return Some(&entries[i].1);
        }
        i = i + 1;
    }
    None
}

/// Looks `key` up when `j` is an object.
fn get_key_exec<'a>(j: &'a Json, key: &Vec<u8>) -> (r: Option<&'a Json>)
    ensures
        match r {
            Option::Some(v) => get_key(*j, key@) == Option::Some(*v),
            Option::None => get_key(*j, key@) is None,
        },
{
    match j {
        Json::Obj(entries) => obj_get_exec(entries, key),
        _ => None,
    }
}

/// Looks the variant key up in the `image_uris` object of `data`, the
/// single-faced shape.
fn direct_image_url<'a>(data: &'a Json, key: &Vec<u8>, uris_key: &Vec<u8>) -> (r: Option<&'a Json>)
    requires
        uris_key@ == image_uris_key(),
    ensures
        ({
            let direct = match get_key(*data, image_uris_key()) {
                Option::Some(Json::Obj(es)) => obj_get(es@, key@),
                _ => Option::<Json>::None,
            };
            match r {
                Option::Some(j) => direct == Option::Some(*j),
                Option::None => direct is None,
            }
        }),
{
    match get_key_exec(data, uris_key) {
        Option::Some(j) => match j {
            Json::Obj(entries) => obj_get_exec(entries, key),
            _ => None,
        },
        Option::None => None,
    }
}

/// Reads one face's contribution, as `face_url` states it.
fn face_url_exec(face: &Json, key: &Vec<u8>, uris_key: &Vec<u8>) -> (r: Result<
    Option<Vec<u8>>,
    ResolveError,
>)
    requires
        uris_key@ == image_uris_key(),
    ensures
        match r {
            Result::Ok(Option::Some(u)) => face_url(*face, key@) == Result::<
                Option<Seq<u8>>,
                ResolveError,
            >::Ok(Option::Some(u@)),
            Result::Ok(Option::None) => face_url(*face, key@) == Result::<
                Option<Seq<u8>>,
                ResolveError,
            >::Ok(Option::None),
            Result::Err(e) => face_url(*face, key@) == Result::<
                Option<Seq<u8>>,
                ResolveError,
            >::Err(e),
        },
{
    match get_key_exec(face, uris_key) {
        Option::Some(j) => match j {
            Json::Obj(entries) => match obj_get_exec(entries, key) {
                Option::Some(Json::Str(s)) => {
                    assert(s@.subrange(0, s@.len() as int) =~= s@);
                    Ok(Some(copy_range(s, 0, s.len())))
                },
                Option::Some(_) => Err(ResolveError::ImageUrlNotString),
                Option::None => Ok(None),
            },
            _ => Err(ResolveError::FaceWithoutImageUris),
        },
        Option::None => Err(ResolveError::FaceWithoutImageUris),
    }
}

/// Reads the image locations for one card out of a response document.
pub fn extract_card_urls(data: &Json, key: &Vec<u8>) -> (r: Result<CardImageUrls, ResolveError>)
    ensures
        match r {
            Result::Ok(c) => extract_spec(*data, key@) == Result::<
                (Option<Seq<u8>>, Option<Seq<u8>>),
                ResolveError,
            >::Ok(c@),
            Result::Err(e) => extract_spec(*data, key@) == Result::<
                (Option<Seq<u8>>, Option<Seq<u8>>),
                ResolveError,
            >::Err(e),
        },
{
    let uris_key = image_uris_key_vec();
    let direct: Option<&Json> = direct_image_url(data, key, &uris_key);
    match direct {
        Option::Some(Json::Str(s)) => {
            assert(s@.subrange(0, s@.len() as int) =~= s@);
            Ok(CardImageUrls { front: Some(copy_range(s, 0, s.len())), back: None })
        },
        Option::Some(_) => Err(ResolveError::ImageUrlNotString),
        Option::None => {
            let faces_key = card_faces_key_vec();
            match get_key_exec(data, &faces_key) {
                Option::Some(Json::Arr(faces)) => {
                    let mut urls: Vec<Vec<u8>> = Vec::new();
                    let mut i: usize = 0;
                    proof {
                        assert(faces@.subrange(0, faces@.len() as int) =~= faces@);
                        if let Result::Ok(all) = face_urls(faces@, key@) {
                            assert(urls@.map_values(|u: Vec<u8>| u@) + all =~= all);
                        }
                    }
                    while i < faces.len()
                        invariant
                            i <= faces@.len(),
                            uris_key@ == image_uris_key(),
                            (match get_key(*data, image_uris_key()) {
                                Option::Some(Json::Obj(es)) => obj_get(es@, key@),
                                _ => Option::<Json>::None,
                            }) is None,
                            get_key(*data, card_faces_key()) == Option::Some(Json::Arr(*faces)),
                            match face_urls(faces@.subrange(i as int, faces@.len() as int), key@) {
                                Result::Ok(rest) => face_urls(faces@, key@) == Result::<
                                    Seq<Seq<u8>>,
                                    ResolveError,
                                >::Ok(urls@.map_values(|u: Vec<u8>| u@) + rest),
                                Result::Err(e) => face_urls(faces@, key@) == Result::<
                                    Seq<Seq<u8>>,
                                    ResolveError,
                                >::Err(e),
                            },
                        decreases faces@.len() - i,
                    {
                        let ghost rest: Seq<Json> = faces@.subrange(i as int, faces@.len() as int);
                        proof {
                            assert(rest[0] == faces@[i as int]);
                            assert(rest.drop_first() =~= faces@.subrange(
                                (i + 1) as int,
                                faces@.len() as int,
                            ));
                        }
                        match face_url_exec(&faces[i], key, &uris_key) {
                            Result::Ok(Option::Some(u)) => {
                                proof {
                                    let f = |x: Vec<u8>| x@;
                                    assert(urls@.push(u).map_values(f) =~= urls@.map_values(f).push(
                                        u@,
                                    ));
                                    if let Result::Ok(after) = face_urls(rest.drop_first(), key@) {
                                        assert(urls@.map_values(f) + (seq![u@] + after)
                                            =~= urls@.map_values(f).push(u@) + after);
                                    }
                                }
                                urls.push(u);
                            },
                            Result::Ok(Option::None) => {},
                            Result::Err(e) => {
                                return Err(e);
                            },
                        }
                        i = i + 1;
                    }
                    proof {
                        assert(faces@.subrange(faces@.len() as int, faces@.len() as int)
                            =~= Seq::<Json>::empty());
                        if let Result::Ok(all) = face_urls(faces@, key@) {
                            assert(urls@.map_values(|u: Vec<u8>| u@) + Seq::<Seq<u8>>::empty()
                                =~= urls@.map_values(|u: Vec<u8>| u@));
                        }
                    }
                    assert(match face_urls(faces@, key@) {
                        Result::Ok(all) => all == urls@.map_values(|u: Vec<u8>| u@),
                        Result::Err(_) => false,
                    });
                    if urls.len() == 2 {
                        assert(urls@[0]@.subrange(0, urls@[0]@.len() as int) =~= urls@[0]@);
                        assert(urls@[1]@.subrange(0, urls@[1]@.len() as int) =~= urls@[1]@);
                        let front = copy_range(&urls[0], 0, urls[0].len());
                        let back = copy_range(&urls[1], 0, urls[1].len());
                        Ok(CardImageUrls { front: Some(front), back: Some(back) })
                    } else if urls.len() >= 1 {
                        assert(urls@[0]@.subrange(0, urls@[0]@.len() as int) =~= urls@[0]@);
                        let front = copy_range(&urls[0], 0, urls[0].len());
                        Ok(CardImageUrls { front: Some(front), back: None })
                    } else {
                        Ok(CardImageUrls { front: None, back: None })
                    }
                },
                _ => Err(ResolveError::ImageUrlsNotFound),
            }
        },
    }
}

} // verus!
