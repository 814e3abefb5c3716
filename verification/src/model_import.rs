//! The integer and byte logic of importing a model: recognising door and
//! lock nodes by their names, pairing doors with their locks, and laying out
//! textures and index buffers.

use crate::meshes::{BakedTexture, IsDoor};
use ctt::encoders::bc7enc::Bc7encSettings;
use ctt::encoders::Encoder;
use ctt::{
    convert, AlphaMode, ColorSpace, Container, ConvertSettings, Format, FormatDesc, Image, PipelineOutput, Surface,
    TargetFormat, TextureKind,
};
use std::collections::HashMap;
use vstd::prelude::*;
use vstd::string::StringExecFns;
use vstd::string::StringSliceAdditionalSpecFns;

verus! {

broadcast use vstd::std_specs::hash::group_hash_axioms;

/// The byte with ASCII upper-case letters mapped to lower case.
pub open spec fn ascii_lower(b: u8) -> u8 {
    if 65 <= b <= 90 {
        (b + 32) as u8
    } else {
        b
    }
}

/// `word` (lower case) occurs in `s` at `at`, ignoring ASCII case.
pub open spec fn word_at(s: Seq<u8>, at: int, word: Seq<u8>) -> bool {
    &&& 0 <= at
    &&& at + word.len() <= s.len()
    &&& forall|j: int| 0 <= j < word.len() ==> #[trigger] ascii_lower(s[at + j]) == word[j]
}

/// `word` (lower case) occurs somewhere in `s`, ignoring ASCII case.
///
/// For UTF-8 text this is the same as `word` occurring in the text's Unicode
/// lower case, for the words used here: no non-ASCII character has a lower
/// case that holds one of their letters.
pub open spec fn contains_word(s: Seq<u8>, word: Seq<u8>) -> bool {
    exists|at: int| word_at(s, at, word)
}

/// "door"
pub open spec fn door_word() -> Seq<u8> {
    seq![100u8, 111u8, 111u8, 114u8]
}

/// "empty"
pub open spec fn empty_word() -> Seq<u8> {
    seq![101u8, 109u8, 112u8, 116u8, 121u8]
}

pub open spec fn is_digit(b: u8) -> bool {
    48 <= b <= 57
}

/// The number written by the decimal digits `s`.
pub open spec fn decimal_value(s: Seq<u8>) -> nat
    decreases s.len(),
{
    if s.len() == 0 {
        0
    } else {
        decimal_value(s.drop_last()) * 10 + (s.last() - 48) as nat
    }
}

/// Every byte of `s` is a decimal digit.
pub open spec fn all_digits(s: Seq<u8>) -> bool {
    forall|i: int| 0 <= i < s.len() ==> is_digit(#[trigger] s[i])
}

/// The text `s` without a leading `+`.
pub open spec fn unsigned_digits(s: Seq<u8>) -> Seq<u8> {
    if s.len() > 0 && s[0] == 43u8 {
        s.drop_first()
    } else {
        s
    }
}

/// What the text `s` gives as a `u32` under the standard decimal syntax: an
/// optional `+`, then one or more digits, of a value that fits.
pub open spec fn spec_parse_u32(s: Seq<u8>) -> Option<u32> {
    let digits = unsigned_digits(s);
    if digits.len() == 0 || !all_digits(digits) || decimal_value(digits) > u32::MAX {
        None
    } else {
        Some(decimal_value(digits) as u32)
    }
}

/// Byte `i` of `s` starts a character (or is the end of the text).
pub open spec fn starts_char(s: Seq<u8>, i: int) -> bool {
    i >= s.len() || !(128 <= s[i] < 192)
}

/// What a scene node is, by its name.
#[derive(Clone, Copy, PartialEq, Eq, Structural, Debug)]
pub enum NodeRole {
    /// A door leaf with this door id.
    Door { id: u32 },
    /// The hinge ("empty") a door turns about, with this door id.
    Lock { id: u32 },
    /// A door or hinge name whose number cannot be read.
    BadId,
    /// Any other node.
    Plain,
}

/// The role of a node named by the bytes `name`: a name holding "door" (in
/// any case) is a door whose number follows the first four bytes; otherwise
/// a name holding "empty" is a hinge whose number follows the first five.
/// Door and hinge numbers count from one; ids count from zero.
pub open spec fn spec_node_role(name: Seq<u8>) -> NodeRole {
    if contains_word(name, door_word()) {
        match spec_parse_u32(name.skip(4)) {
            Some(n) => NodeRole::Door { id: (n - 1) as u32 },
            None => NodeRole::BadId,
        }
    } else if contains_word(name, empty_word()) {
        match spec_parse_u32(name.skip(5)) {
            Some(n) => NodeRole::Lock { id: (n - 1) as u32 },
            None => NodeRole::BadId,
        }
    } else {
        NodeRole::Plain
    }
}

/// The names whose role can be taken: a door or hinge name is cut after its
/// first four or five bytes, which must end a character, and its number may
/// not be zero.
pub open spec fn node_name_accepted(name: Seq<u8>) -> bool {
    if contains_word(name, door_word()) {
        starts_char(name, 4) && spec_parse_u32(name.skip(4)) != Some(0u32)
    } else if contains_word(name, empty_word()) {
        starts_char(name, 5) && spec_parse_u32(name.skip(5)) != Some(0u32)
    } else {
        true
    }
}

fn word_matches_at(s: &[u8], at: usize, word: &[u8]) -> (r: bool)
    requires
        at + word@.len() <= s@.len(),
    ensures
        r == word_at(s@, at as int, word@),
{
    let n = s.len();
    let mut j: usize = 0;
    while j < word.len()
        invariant
            n == s@.len(),
            at + word@.len() <= s@.len(),
            j <= word@.len(),
            forall|k: int| 0 <= k < j ==> #[trigger] ascii_lower(s@[at + k]) == word@[k],
        decreases word@.len() - j,
    {
        assert(at + j < s@.len());
        let b = s[at + j];
        let lower = if 65 <= b && b <= 90 {
            b + 32
        } else {
            b
        };
        if lower != word[j] {
            assert(ascii_lower(s@[at + j]) != word@[j as int]);
            return false;
        }
        j = j + 1;
    }
    true
}

/// Whether `word` (lower case) occurs in `s`, ignoring ASCII case.
pub fn contains_word_ignoring_case(s: &[u8], word: &[u8]) -> (r: bool)
    ensures
        r == contains_word(s@, word@),
{
    if word.len() > s.len() {
        return false;
    }
    if word.len() == 0 {
        assert(word_at(s@, 0, word@));
        return true;
    }
    let n = s.len();
    let last = n - word.len();
    let mut at: usize = 0;
    while at <= last
        invariant
            n == s@.len(),
            last == s@.len() - word@.len(),
            1 <= word@.len() <= s@.len(),
            at <= last + 1,
            forall|k: int| 0 <= k < at ==> !word_at(s@, k, word@),
        decreases last + 1 - at,
    {
        if word_matches_at(s, at, word) {
            return true;
        }
        at = at + 1;
    }
    assert forall|k: int| !word_at(s@, k, word@) by {
        if 0 <= k < at {
        }
    }
    false
}

proof fn lemma_decimal_step(s: Seq<u8>, start: int, i: int)
    requires
        0 <= start <= i < s.len(),
    ensures
        decimal_value(s.subrange(start, i + 1)) == decimal_value(s.subrange(start, i)) * 10 + (s[i]
            - 48) as nat,
{
    assert(s.subrange(start, i + 1).drop_last() =~= s.subrange(start, i));
}

/// The `u32` written from byte `from` of `s` to its end, by the standard
/// decimal syntax; `None` where that text is not such a number.
pub fn parse_u32_from(s: &[u8], from: usize) -> (r: Option<u32>)
    requires
        from <= s@.len(),
    ensures
        r == spec_parse_u32(s@.skip(from as int)),
{
    let n = s.len();
    let ghost text = s@.skip(from as int);
    let mut start = from;
    if from < n && s[from] == 43 {
        start = from + 1;
    }
    let ghost digits = s@.subrange(start as int, n as int);
    assert(digits =~= unsigned_digits(text));
    if start == n {
        return None;
    }
    let mut i = start;
    let mut acc: u64 = 0;
    let mut big = false;
    assert(s@.subrange(start as int, start as int) =~= Seq::<u8>::empty());
    while i < n
        invariant
            n == s@.len(),
            from <= start < n,
            start <= i <= n,
            digits == s@.subrange(start as int, n as int),
            text == s@.skip(from as int),
            digits == unsigned_digits(text),
            forall|k: int| start <= k < i ==> is_digit(#[trigger] s@[k]),
            big ==> decimal_value(s@.subrange(start as int, i as int)) > u32::MAX,
            !big ==> acc == decimal_value(s@.subrange(start as int, i as int)),
            !big ==> acc <= u32::MAX,
        decreases n - i,
    {
        let b = s[i];
        if b < 48 || b > 57 {
            assert(!is_digit(digits[i - start]));
            assert(!all_digits(digits));
            return None;
        }
        proof {
            lemma_decimal_step(s@, start as int, i as int);
        }
        if !big {
            let v = acc * 10 + (b - 48) as u64;
            if v > 0xffff_ffff {
                big = true;
            } else {
                acc = v;
            }
        }
        i = i + 1;
    }
    assert(s@.subrange(start as int, n as int) =~= digits);
    assert(all_digits(digits)) by {
        assert forall|k: int| 0 <= k < digits.len() implies is_digit(#[trigger] digits[k]) by {
            assert(digits[k] == s@[start + k]);
        }
    }
    if big {
        None
    } else {
        Some(acc as u32)
    }
}

/// The role of a scene node by its name; see `spec_node_role`.
pub fn node_role(name: &str) -> (role: NodeRole)
    requires
        node_name_accepted(name.spec_bytes()),
    ensures
        role == spec_node_role(name.spec_bytes()),
{
    let bytes = name.as_bytes();
    let door: [u8; 4] = [100, 111, 111, 114];
    let empty: [u8; 5] = [101, 109, 112, 116, 121];
    assert(door@ == door_word());
    assert(empty@ == empty_word());
    if contains_word_ignoring_case(bytes, door.as_slice()) {
        let ghost at = choose|at: int| word_at(bytes@, at, door_word());
        assert(bytes@.len() >= 4);
        match parse_u32_from(bytes, 4) {
            Some(n) => NodeRole::Door { id: n - 1 },
            None => NodeRole::BadId,
        }
    } else if contains_word_ignoring_case(bytes, empty.as_slice()) {
        let ghost at = choose|at: int| word_at(bytes@, at, empty_word());
        assert(bytes@.len() >= 5);
        match parse_u32_from(bytes, 5) {
            Some(n) => NodeRole::Lock { id: n - 1 },
            None => NodeRole::BadId,
        }
    } else {
        NodeRole::Plain
    }
}

/// The door tag a primitive of a node gets from the node's role: only
/// primitives of door nodes are door primitives, with the node's door id.
pub open spec fn spec_door_tag(role: NodeRole) -> IsDoor {
    match role {
        NodeRole::Door { id } => IsDoor { id: Some(id), door: true },
        _ => IsDoor { id: None, door: false },
    }
}

/// Every door primitive among the tags `p` carries a door id.
pub open spec fn door_tags_named(p: Seq<IsDoor>) -> bool {
    forall|i: int| 0 <= i < p.len() && (#[trigger] p[i]).door ==> p[i].id is Some
}

/// Tags given to primitives from their nodes' roles, in any order, mark
/// door primitives only together with a door id.
pub proof fn lemma_door_tags_named(roles: Seq<NodeRole>)
    ensures
        door_tags_named(roles.map_values(|role: NodeRole| spec_door_tag(role))),
{
}

/// The door tag a primitive of a node gets from the node's role.
pub fn door_tag(role: NodeRole) -> (tag: IsDoor)
    ensures
        tag == spec_door_tag(role),
{
    match role {
        NodeRole::Door { id } => IsDoor { id: Some(id), door: true },
        _ => IsDoor { id: None, door: false },
    }
}

/// A door together with its hinge: the door id and where the hinge node and
/// the door node were recorded.
#[derive(Clone, Copy, PartialEq, Eq, Structural, Debug)]
pub struct DoorPair {
    pub id: u32,
    pub lock: usize,
    pub door: usize,
}

/// The door and hinge nodes met while walking a model's scene graph, with
/// what the caller keeps of each (`D` for doors, `L` for hinges) in the
/// order they were met, and for each door id where its last door node and
/// its last hinge node were recorded.
pub struct DoorNodes<D, L> {
    pub doors: Vec<D>,
    pub locks: Vec<L>,
    pub door_ids: HashMap<usize, usize>,
    pub lock_ids: HashMap<usize, usize>,
}

impl<D, L> DoorNodes<D, L> {
    /// Every recorded place is a place in `doors` or `locks`.
    pub open spec fn wf(&self) -> bool {
        &&& forall|k: usize| #[trigger]
            self.door_ids@.contains_key(k) ==> self.door_ids@[k] < self.doors@.len()
        &&& forall|k: usize| #[trigger]
            self.lock_ids@.contains_key(k) ==> self.lock_ids@[k] < self.locks@.len()
    }

    /// The doors paired with their hinges, for the ids below `n`, in id order.
    pub open spec fn spec_pairs(&self, n: nat) -> Seq<DoorPair>
        decreases n,
    {
        if n == 0 {
            Seq::empty()
        } else {
            let prev = self.spec_pairs((n - 1) as nat);
            let id = (n - 1) as usize;
            if self.door_ids@.contains_key(id) && self.lock_ids@.contains_key(id) {
                prev.push(DoorPair { id: id as u32, lock: self.lock_ids@[id], door: self.door_ids@[id] })
            } else {
                prev
            }
        }
    }

    /// Nothing met yet.
    pub fn new() -> (r: Self)
        ensures
            r.wf(),
            r.doors@ == Seq::<D>::empty(),
            r.locks@ == Seq::<L>::empty(),
            r.door_ids@ == Map::<usize, usize>::empty(),
            r.lock_ids@ == Map::<usize, usize>::empty(),
    {
        DoorNodes { doors: Vec::new(), locks: Vec::new(), door_ids: HashMap::new(), lock_ids: HashMap::new() }
    }

    /// Takes a named node whose transform is given by parts: a door node keeps
    /// `door` and is recorded under its id, a hinge node keeps `lock` likewise,
    /// and other nodes leave everything as it was. Returns the node's role.
    pub fn visit_named_node(&mut self, name: &str, door: D, lock: L) -> (role: NodeRole)
        requires
            old(self).wf(),
            node_name_accepted(name.spec_bytes()),
        ensures
            role == spec_node_role(name.spec_bytes()),
            final(self).wf(),
            match role {
                NodeRole::Door { id } => {
                    &&& final(self).doors@ == old(self).doors@.push(door)
                    &&& final(self).door_ids@ == old(self).door_ids@.insert(
                        id as usize,
                        old(self).doors@.len() as usize,
                    )
                    &&& final(self).locks@ == old(self).locks@
                    &&& final(self).lock_ids@ == old(self).lock_ids@
                },
                NodeRole::Lock { id } => {
                    &&& final(self).locks@ == old(self).locks@.push(lock)
                    &&& final(self).lock_ids@ == old(self).lock_ids@.insert(
                        id as usize,
                        old(self).locks@.len() as usize,
                    )
                    &&& final(self).doors@ == old(self).doors@
                    &&& final(self).door_ids@ == old(self).door_ids@
                },
                _ => {
                    &&& final(self).doors@ == old(self).doors@
                    &&& final(self).door_ids@ == old(self).door_ids@
                    &&& final(self).locks@ == old(self).locks@
                    &&& final(self).lock_ids@ == old(self).lock_ids@
                },
            },
    {
        let role = node_role(name);
        match role {
            NodeRole::Door { id } => {
                let place = self.doors.len();
                self.doors.push(door);
                self.door_ids.insert(id as usize, place);
            },
            NodeRole::Lock { id } => {
                let place = self.locks.len();
                self.locks.push(lock);
                self.lock_ids.insert(id as usize, place);
            },
            _ => {},
        }
        role
    }

    /// Ends the walk over a model. Where no door or no hinge was met, every
    /// primitive loses its door flag (keeping its id) and no door is built;
    /// else each id below the number of hinge nodes that has both a door and
    /// a hinge gives a pair, in id order.
    pub fn finish(&self, primitives: &mut Vec<IsDoor>) -> (pairs: Vec<DoorPair>)
        requires
            self.wf(),
        ensures
            if self.doors@.len() == 0 || self.locks@.len() == 0 {
                &&& pairs@ == Seq::<DoorPair>::empty()
                &&& final(primitives)@.len() == old(primitives)@.len()
                &&& forall|i: int|
                    0 <= i < old(primitives)@.len() ==> #[trigger] final(primitives)@[i] == (IsDoor {
                        door: false,
                        ..old(primitives)@[i]
                    })
            } else {
                &&& pairs@ == self.spec_pairs(self.locks@.len())
                &&& final(primitives)@ == old(primitives)@
            },
            forall|i: int|
                0 <= i < pairs@.len() ==> #[trigger] pairs@[i].lock < self.locks@.len()
                    && pairs@[i].door < self.doors@.len(),
            door_tags_named(old(primitives)@) ==> door_tags_named(final(primitives)@),
    {
        let mut pairs: Vec<DoorPair> = Vec::new();
        if self.locks.len() == 0 || self.doors.len() == 0 {
            let n = primitives.len();
            let mut i: usize = 0;
            while i < n
                invariant
                    n == old(primitives)@.len(),
                    primitives@.len() == n,
                    i <= n,
                    forall|k: int|
                        0 <= k < i ==> #[trigger] primitives@[k] == (IsDoor {
                            door: false,
                            ..old(primitives)@[k]
                        }),
                    forall|k: int| i <= k < n ==> #[trigger] primitives@[k] == old(primitives)@[k],
                decreases n - i,
            {
                let id = primitives[i].id;
                primitives.set(i, IsDoor { id, door: false });
                i = i + 1;
            }
            return pairs;
        }
        let n = self.locks.len();
        let mut id: usize = 0;
        while id < n
            invariant
                self.wf(),
                n == self.locks@.len(),
                id <= n,
                pairs@ == self.spec_pairs(id as nat),
                forall|i: int|
                    0 <= i < pairs@.len() ==> #[trigger] pairs@[i].lock < self.locks@.len()
                        && pairs@[i].door < self.doors@.len(),
            decreases n - id,
        {
            match self.door_ids.get(&id) {
                Some(door) => {
                    match self.lock_ids.get(&id) {
                        Some(lock) => {
                            pairs.push(DoorPair { id: id as u32, lock: *lock, door: *door });
                        },
                        None => {},
                    }
                },
                None => {},
            }
            id = id + 1;
        }
        pairs
    }
}

/// Each id has at most one pair, pairs come in increasing id order, and each
/// pair names the places where its door and its hinge were recorded under
/// that id (for fewer than 2^32 hinge nodes, so that ids are exact).
pub proof fn lemma_pairs_sound<D, L>(nodes: DoorNodes<D, L>, n: nat)
    requires
        n <= 0x1_0000_0000,
    ensures
        forall|i: int, j: int|
            0 <= i < j < nodes.spec_pairs(n).len() ==> #[trigger] nodes.spec_pairs(n)[i].id
                < #[trigger] nodes.spec_pairs(n)[j].id,
        forall|i: int|
            0 <= i < nodes.spec_pairs(n).len() ==> {
                let p = #[trigger] nodes.spec_pairs(n)[i];
                &&& p.id < n
                &&& nodes.door_ids@.contains_key(p.id as usize)
                &&& nodes.lock_ids@.contains_key(p.id as usize)
                &&& nodes.door_ids@[p.id as usize] == p.door
                &&& nodes.lock_ids@[p.id as usize] == p.lock
            },
    decreases n,
{
    if n > 0 {
        lemma_pairs_sound(nodes, (n - 1) as nat);
        let prev = nodes.spec_pairs((n - 1) as nat);
        let id = (n - 1) as usize;
        assert(id as int == n - 1);
        assert(id as u32 as int == n - 1);
        if nodes.door_ids@.contains_key(id) && nodes.lock_ids@.contains_key(id) {
            let all = nodes.spec_pairs(n);
            assert(all == prev.push(
                DoorPair { id: id as u32, lock: nodes.lock_ids@[id], door: nodes.door_ids@[id] },
            ));
            assert forall|i: int| 0 <= i < prev.len() implies #[trigger] all[i] == prev[i] by {}
            assert(all[prev.len() as int].id as usize == id);
        }
    }
}

/// For each image of a model, the texture made from it: images are numbered
/// by the model file, textures in the order they are made.
pub struct TextureCache {
    pub slots: HashMap<usize, usize>,
    pub count: usize,
}

impl TextureCache {
    /// Every texture number is below `count`, and no two images share one.
    pub open spec fn wf(&self) -> bool {
        &&& forall|k: usize| #[trigger] self.slots@.contains_key(k) ==> self.slots@[k] < self.count
        &&& forall|a: usize, b: usize|
            #![trigger self.slots@[a], self.slots@[b]]
            self.slots@.contains_key(a) && self.slots@.contains_key(b) && self.slots@[a]
                == self.slots@[b] ==> a == b
    }

    /// No texture made yet.
    pub fn new() -> (r: TextureCache)
        ensures
            r.wf(),
            r.slots@ == Map::<usize, usize>::empty(),
            r.count == 0,
    {
        TextureCache { slots: HashMap::new(), count: 0 }
    }

    /// The cache and answer after asking for the texture of `image`: an image
    /// seen before keeps its texture, a new image gets the next number and
    /// has its texture still to be made.
    pub open spec fn spec_texture_for(slots: Map<usize, usize>, count: usize, image: usize) -> (
        Map<usize, usize>,
        usize,
        (usize, bool),
    ) {
        if slots.contains_key(image) {
            (slots, count, (slots[image], false))
        } else {
            (slots.insert(image, count), (count + 1) as usize, (count, true))
        }
    }

    /// The texture for `image` and whether it has still to be made; see
    /// `spec_texture_for`.
    pub fn texture_for(&mut self, image: usize) -> (r: (usize, bool))
        requires
            old(self).wf(),
            old(self).count < usize::MAX,
        ensures
            final(self).wf(),
            (final(self).slots@, final(self).count, r) == TextureCache::spec_texture_for(
                old(self).slots@,
                old(self).count,
                image,
            ),
    {
        match self.slots.get(&image) {
            Some(t) => (*t, false),
            None => {
                let t = self.count;
                self.slots.insert(image, t);
                self.count = t + 1;
                (t, true)
            },
        }
    }
}

/// Two different images never share a texture.
pub proof fn lemma_textures_distinct(c: TextureCache, a: usize, b: usize)
    requires
        c.wf(),
        c.slots@.contains_key(a),
        c.slots@.contains_key(b),
        a != b,
    ensures
        c.slots@[a] != c.slots@[b],
{
}

/// Asking twice for the same image gives the same texture, made once.
pub proof fn lemma_texture_asked_twice(slots: Map<usize, usize>, count: usize, image: usize)
    requires
        count < usize::MAX,
    ensures
        ({
            let (s1, c1, r1) = TextureCache::spec_texture_for(slots, count, image);
            let (s2, c2, r2) = TextureCache::spec_texture_for(s1, c1, image);
            &&& r2 == (r1.0, false)
            &&& s2 == s1
            &&& c2 == c1
        }),
{
}

/// The texture recorded for an image is one that has been made.
pub proof fn lemma_texture_made(c: TextureCache, image: usize)
    requires
        c.wf(),
        c.slots@.contains_key(image),
    ensures
        c.slots@[image] < c.count,
{
}

/// The cache and the answers after asking, in order, for the textures of
/// `images`, starting from an empty cache.
pub open spec fn spec_textures(images: Seq<usize>) -> (Map<usize, usize>, usize, Seq<(usize, bool)>)
    decreases images.len(),
{
    if images.len() == 0 {
        (Map::empty(), 0, Seq::empty())
    } else {
        let (slots, count, answers) = spec_textures(images.drop_last());
        let (slots2, count2, r) = TextureCache::spec_texture_for(slots, count, images.last());
        (slots2, count2, answers.push(r))
    }
}

/// Asking for the textures of a model's images one after another, from an
/// empty cache: every answer is a texture that has been made, the same image
/// always gets the same texture and different images different ones, a
/// texture is to be made exactly when its image is asked for the first
/// time, and the cache holds exactly the images asked for, each under its
/// answer.
pub proof fn lemma_texture_walk(images: Seq<usize>)
    requires
        images.len() < usize::MAX,
    ensures
        ({
            let (slots, count, answers) = spec_textures(images);
            &&& answers.len() == images.len()
            &&& count <= images.len()
            &&& forall|k: int| 0 <= k < images.len() ==> (#[trigger] answers[k]).0 < count
            &&& forall|a: int, b: int|
                0 <= a < images.len() && 0 <= b < images.len() ==> ((#[trigger] answers[a]).0
                    == (#[trigger] answers[b]).0 <==> images[a] == images[b])
            &&& forall|k: int|
                0 <= k < images.len() ==> ((#[trigger] answers[k]).1 <==> !images.take(
                    k,
                ).contains(images[k]))
            &&& forall|i: usize| slots.contains_key(i) <==> images.contains(i)
            &&& forall|k: int|
                0 <= k < images.len() ==> slots[images[k]] == (#[trigger] answers[k]).0
            &&& forall|i: usize| #[trigger] slots.contains_key(i) ==> slots[i] < count
        }),
    decreases images.len(),
{
    if images.len() > 0 {
        let n = images.len() - 1;
        let head = images.drop_last();
        let x = images.last();
        lemma_texture_walk(head);
        let (slots0, count0, answers0) = spec_textures(head);
        let (slots, count, answers) = spec_textures(images);
        assert(images.take(n) =~= head);
        assert forall|k: int| 0 <= k < n implies #[trigger] images.take(k) =~= head.take(k) by {}
        assert forall|k: int| 0 <= k < n implies #[trigger] answers[k] == answers0[k] by {}
        assert(head.contains(x) <==> slots0.contains_key(x));
        if slots0.contains_key(x) {
            let w = choose|w: int| 0 <= w < head.len() && head[w] == x;
            assert(slots0[head[w]] == answers0[w].0);
        }
        assert forall|i: usize| slots.contains_key(i) <==> images.contains(i) by {
            if images.contains(i) && i != x {
                let w = choose|w: int| 0 <= w < images.len() && images[w] == i;
                assert(head[w] == i);
            }
            if head.contains(i) {
                let w = choose|w: int| 0 <= w < head.len() && head[w] == i;
                assert(images[w] == i);
            }
            assert(images[n] == x);
        }
        assert forall|a: int, b: int|
            0 <= a < images.len() && 0 <= b < images.len() implies ((#[trigger] answers[a]).0
            == (#[trigger] answers[b]).0 <==> images[a] == images[b]) by {
            if a < n {
                assert(head.contains(head[a]));
                assert(slots0.contains_key(head[a]));
            }
            if b < n {
                assert(head.contains(head[b]));
                assert(slots0.contains_key(head[b]));
            }
        }
        assert forall|k: int|
            0 <= k < images.len() implies slots[images[k]] == (#[trigger] answers[k]).0 by {
            if k < n {
                assert(head.contains(head[k]));
                assert(slots0.contains_key(head[k]));
            }
        }
    }
}

/// The pixel layouts of model images.
#[derive(Clone, Copy, PartialEq, Eq, Structural, Debug)]
pub enum PixelFormat {
    /// Three bytes per pixel: red, green, blue.
    R8G8B8,
    /// Four bytes per pixel: red, green, blue, alpha.
    R8G8B8A8,
    /// Any other layout.
    Other,
}

/// `out` holds the pixels of `rgb` (three bytes each; a trailing partial
/// pixel is dropped) with an opaque alpha byte after each.
pub open spec fn is_rgba_of_rgb(out: Seq<u8>, rgb: Seq<u8>) -> bool {
    &&& out.len() == 4 * (rgb.len() / 3)
    &&& forall|p: int|
        0 <= p < rgb.len() / 3 ==> {
            &&& #[trigger] out[4 * p] == rgb[3 * p]
            &&& out[4 * p + 1] == rgb[3 * p + 1]
            &&& out[4 * p + 2] == rgb[3 * p + 2]
            &&& out[4 * p + 3] == 255
        }
}

/// The pixels of an image as red, green, blue, alpha bytes.
pub fn to_rgba(format: PixelFormat, pixels: &[u8]) -> (out: Vec<u8>)
    requires
        format != PixelFormat::Other,
    ensures
        format == PixelFormat::R8G8B8A8 ==> out@ == pixels@,
        format == PixelFormat::R8G8B8 ==> is_rgba_of_rgb(out@, pixels@),
{
    if format == PixelFormat::R8G8B8A8 {
        let mut copy: Vec<u8> = Vec::new();
        let n = pixels.len();
        let mut i: usize = 0;
        while i < n
            invariant
                n == pixels@.len(),
                i <= n,
                copy@ == pixels@.subrange(0, i as int),
            decreases n - i,
        {
            copy.push(pixels[i]);
            i = i + 1;
            assert(copy@ =~= pixels@.subrange(0, i as int));
        }
        assert(pixels@.subrange(0, n as int) =~= pixels@);
        return copy;
    }
    let len = pixels.len();
    let count = len / 3;
    let mut out: Vec<u8> = Vec::new();
    let mut p: usize = 0;
    while p < count
        invariant
            len == pixels@.len(),
            count == pixels@.len() / 3,
            p <= count,
            out@.len() == 4 * p,
            forall|q: int|
                0 <= q < p ==> {
                    &&& #[trigger] out@[4 * q] == pixels@[3 * q]
                    &&& out@[4 * q + 1] == pixels@[3 * q + 1]
                    &&& out@[4 * q + 2] == pixels@[3 * q + 2]
                    &&& out@[4 * q + 3] == 255
                },
        decreases count - p,
    {
        assert(3 * p + 3 <= len);
        let base = 3 * p;
        let ghost prev = out@;
        out.push(pixels[base]);
        out.push(pixels[base + 1]);
        out.push(pixels[base + 2]);
        out.push(255);
        assert forall|q: int|
            0 <= q < p + 1 implies {
                &&& #[trigger] out@[4 * q] == pixels@[3 * q]
                &&& out@[4 * q + 1] == pixels@[3 * q + 1]
                &&& out@[4 * q + 2] == pixels@[3 * q + 2]
                &&& out@[4 * q + 3] == 255
            } by {
            if q < p {
                assert(out@[4 * q] == prev[4 * q]);
                assert(out@[4 * q + 1] == prev[4 * q + 1]);
                assert(out@[4 * q + 2] == prev[4 * q + 2]);
                assert(out@[4 * q + 3] == prev[4 * q + 3]);
            }
        }
        p = p + 1;
    }
    out
}

/// A texture side rounded up to whole compressed blocks of four texels.
pub fn block_extent(size: u32) -> (r: u32)
    requires
        size <= u32::MAX - 3,
    ensures
        r == (size + 3) / 4 * 4,
        r % 4 == 0,
        size <= r < size + 4,
{
    (size + 3) / 4 * 4
}

/// The number of bytes of BC7 data for an image of `width` by `height`
/// texels: sixteen for each block of four by four, partial blocks counted.
pub open spec fn bc7_byte_len(width: u32, height: u32) -> int {
    (width + 3) / 4 * ((height + 3) / 4) * 16
}

/// Compresses an image of `width` by `height` RGBA8 pixels (linear colour,
/// straight alpha; `stride` bytes per row) to BC7 blocks with
/// `ctt::convert`, using its bc7enc encoder with default settings and no
/// container, and returns the bytes of each layer of each mip level.
/// `None` where `convert` fails or gives an encoded file.
///
/// Claimed of `convert` here: it checks the image first and fails exactly
/// unless both sides are at least one, a row of `stride` bytes holds
/// `width` pixels and `rgba` covers every row (past that check, the float
/// pipeline, the bc7enc encoder and the raw output cannot fail for this
/// format); without mipmap generation it keeps the one layer of one level
/// it was given; bc7enc writes sixteen bytes per block of four by four
/// texels. Nothing is stated of the bytes themselves, nor of how they
/// follow from `rgba`: the encoder picks its instruction set on the machine
/// it runs on, so they are not a function of the arguments alone.
#[verifier::external_body]
fn compress_bc7(rgba: Vec<u8>, width: u32, height: u32, stride: u32) -> (out: Option<Vec<Vec<Vec<u8>>>>)
    ensures
        out matches Some(levels) ==> {
            &&& levels@.len() == 1
            &&& levels@[0]@.len() == 1
            &&& levels@[0]@[0]@.len() == bc7_byte_len(width, height)
            &&& 1 <= width && 1 <= height
            &&& width * 4 <= stride
            &&& (height - 1) * stride + width * 4 <= rgba@.len()
        },
        (1 <= width && 1 <= height && width * 4 <= stride && (height - 1) * stride + width * 4
            <= rgba@.len()) ==> out is Some,
{
    let encoder = Encoder::Bc7enc(Bc7encSettings::default());
    let format = Some(TargetFormat::Compressed { format: Format::BC7_UNORM_BLOCK, encoder });
    let settings = ConvertSettings { format, container: Container::Raw, ..Default::default() };
    let desc =
        FormatDesc { format: Format::R8G8B8A8_UNORM, color_space: ColorSpace::Linear, alpha: AlphaMode::Straight };
    let surface = Surface { data: rgba, width, height, depth: 1, stride, slice_stride: 0 };
    let image = Image { surfaces: vec![vec![surface]], kind: TextureKind::Texture2D, desc };
    match convert(image.to_ref(), settings) {
        Ok(PipelineOutput::Raw(out)) => Some(
            out.surfaces.into_iter().map(|l| l.into_iter().map(|s| s.data).collect()).collect(),
        ),
        _ => None,
    }
}

/// Why a texture could not be baked.
#[derive(Clone, Copy, PartialEq, Eq, Structural, Debug)]
pub enum BakeError {
    /// The compressor failed.
    Compression,
    /// The compressor gave no mip level.
    NoLevel,
    /// The compressor's last mip level has no layer.
    NoLayer,
}

/// The baked texture made from the compressor's output `out` for an image of
/// `width` by `height` pixels: the bytes of the last layer of the last mip
/// level, with the sides rounded up to whole blocks.
pub fn baked_from_surfaces(out: Option<Vec<Vec<Vec<u8>>>>, width: u32, height: u32) -> (r: Result<
    BakedTexture,
    BakeError,
>)
    requires
        width <= u32::MAX - 3,
        height <= u32::MAX - 3,
    ensures
        match out {
            None => r == Err::<BakedTexture, BakeError>(BakeError::Compression),
            Some(levels) => if levels@.len() == 0 {
                r == Err::<BakedTexture, BakeError>(BakeError::NoLevel)
            } else if levels@.last()@.len() == 0 {
                r == Err::<BakedTexture, BakeError>(BakeError::NoLayer)
            } else {
                &&& r is Ok
                &&& r->Ok_0.texture@ == levels@.last()@.last()@
                &&& r->Ok_0.width == (width + 3) / 4 * 4
                &&& r->Ok_0.height == (height + 3) / 4 * 4
            },
        },
{
    match out {
        None => Err(BakeError::Compression),
        Some(levels) => {
            let mut levels = levels;
            match levels.pop() {
                None => Err(BakeError::NoLevel),
                Some(layers) => {
                    let mut layers = layers;
                    match layers.pop() {
                        None => Err(BakeError::NoLayer),
                        Some(data) => Ok(
                            BakedTexture {
                                texture: data,
                                width: block_extent(width),
                                height: block_extent(height),
                            },
                        ),
                    }
                },
            }
        },
    }
}

/// The number of RGBA bytes that `to_rgba` makes of `pixels`.
pub open spec fn rgba_len(format: PixelFormat, pixels: Seq<u8>) -> int {
    if format == PixelFormat::R8G8B8 {
        (4 * (pixels.len() / 3)) as int
    } else {
        pixels.len() as int
    }
}

/// Bakes an image into a BC7 texture: its pixels made RGBA, compressed,
/// and the sides rounded up to whole blocks. It succeeds exactly when the
/// image is not empty and its pixels fill `width` by `height`; otherwise the
/// compressor refuses it.
pub fn bake_texture(format: PixelFormat, pixels: &[u8], width: u32, height: u32) -> (r: Result<
    BakedTexture,
    BakeError,
>)
    requires
        format != PixelFormat::Other,
        width <= u32::MAX / 4,
        height <= u32::MAX - 3,
    ensures
        match r {
            Ok(t) => {
                &&& t.width == (width + 3) / 4 * 4
                &&& t.height == (height + 3) / 4 * 4
                &&& t.texture@.len() == bc7_byte_len(width, height)
            },
            Err(e) => e == BakeError::Compression,
        },
        r is Ok <==> (1 <= width && 1 <= height && width * height * 4 <= rgba_len(
            format,
            pixels@,
        )),
{
    let rgba = to_rgba(format, pixels);
    let ghost rgba_seq = rgba@;
    let stride = width * 4;
    let out = compress_bc7(rgba, width, height, stride);
    proof {
        let h = height as int;
        let w = width as int;
        assert((h - 1) * (w * 4) + w * 4 == w * h * 4) by (nonlinear_arith);
        assert(rgba_seq.len() == rgba_len(format, pixels@));
    }
    baked_from_surfaces(out, width, height)
}

/// Where a primitive's indices stand in a model's index buffer, and the
/// offset of its model matrix in the matrix buffer.
#[derive(Clone, Copy, PartialEq, Eq, Structural, Debug)]
pub struct PrimitiveRange {
    pub start: u32,
    pub count: u32,
    pub offset_buffer: u32,
}

/// The byte offset of the `index`-th 256-byte slot of a uniform buffer.
pub fn dynamic_offset(index: usize) -> (r: u32)
    requires
        (index as u32) * 256 <= u32::MAX,
    ensures
        r == (index as u32) * 256,
{
    (index as u32) * 256
}

/// The shared buffers of a model being imported: the number of vertices
/// and model matrices so far, and all indices, each shifted to address the
/// shared vertex buffer.
pub struct IndexLayout {
    pub vertex_count: usize,
    pub indices: Vec<u32>,
    pub matrix_count: usize,
}

impl IndexLayout {
    /// The buffers as plain values: vertices so far, all indices, matrices
    /// so far.
    pub open spec fn state(&self) -> (nat, Seq<u32>, nat) {
        (self.vertex_count as nat, self.indices@, self.matrix_count as nat)
    }

    /// Nothing added yet.
    pub fn new() -> (r: IndexLayout)
        ensures
            r.vertex_count == 0,
            r.indices@ == Seq::<u32>::empty(),
            r.matrix_count == 0,
    {
        IndexLayout { vertex_count: 0, indices: Vec::new(), matrix_count: 0 }
    }

    /// Adds a primitive with `vertices` vertices and indices `local` (which
    /// count from its own first vertex) and one model matrix; returns where
    /// its indices and its matrix stand.
    pub fn append_primitive(&mut self, vertices: usize, local: &[u32]) -> (r: PrimitiveRange)
        requires
            old(self).vertex_count + vertices <= usize::MAX,
            old(self).matrix_count < usize::MAX,
            (old(self).matrix_count as u32) * 256 <= u32::MAX,
            forall|i: int|
                0 <= i < local@.len() ==> #[trigger] local@[i] + (old(self).vertex_count as u32)
                    <= u32::MAX,
        ensures
            r.start == old(self).indices@.len() as u32,
            r.count == local@.len() as u32,
            r.offset_buffer == (old(self).matrix_count as u32) * 256,
            final(self).indices@ == old(self).indices@ + local@.map_values(
                |i: u32| (i + (old(self).vertex_count as u32)) as u32,
            ),
            final(self).vertex_count == old(self).vertex_count + vertices,
            final(self).matrix_count == old(self).matrix_count + 1,
            (final(self).state(), r) == spec_append(old(self).state(), vertices as nat, local@),
    {
        let offset = self.vertex_count as u32;
        let start = self.indices.len() as u32;
        let offset_buffer = dynamic_offset(self.matrix_count);
        let n = local.len();
        let ghost before = self.indices@;
        let mut i: usize = 0;
        while i < n
            invariant
                n == local@.len(),
                i <= n,
                offset == old(self).vertex_count as u32,
                forall|k: int| 0 <= k < local@.len() ==> #[trigger] local@[k] + offset <= u32::MAX,
                self.indices@ == before + local@.subrange(0, i as int).map_values(
                    |x: u32| (x + offset) as u32,
                ),
                self.vertex_count == old(self).vertex_count,
                self.matrix_count == old(self).matrix_count,
            decreases n - i,
        {
            self.indices.push(local[i] + offset);
            i = i + 1;
            assert(local@.subrange(0, i as int).map_values(|x: u32| (x + offset) as u32)
                =~= local@.subrange(0, i - 1).map_values(|x: u32| (x + offset) as u32).push(
                (local@[i - 1] + offset) as u32,
            ));
        }
        assert(local@.subrange(0, n as int) =~= local@);
        self.vertex_count = self.vertex_count + vertices;
        self.matrix_count = self.matrix_count + 1;
        PrimitiveRange { start, count: n as u32, offset_buffer }
    }
}

/// Adding a primitive of `vertices` vertices with indices `local` to the
/// buffers `state` (vertices so far, all indices, matrices so far): the
/// buffers after, and where the primitive's indices and matrix stand.
pub open spec fn spec_append(state: (nat, Seq<u32>, nat), vertices: nat, local: Seq<u32>) -> (
    (nat, Seq<u32>, nat),
    PrimitiveRange,
) {
    let base = state.0;
    (
        (
            base + vertices,
            state.1 + local.map_values(|i: u32| (i + (base as u32)) as u32),
            state.2 + 1,
        ),
        PrimitiveRange {
            start: state.1.len() as u32,
            count: local.len() as u32,
            offset_buffer: ((state.2 as u32) * 256) as u32,
        },
    )
}

/// The buffers and the primitive ranges after adding the primitives
/// `prims` (each its vertex count and its own indices), in order, to empty
/// buffers.
pub open spec fn spec_layout(prims: Seq<(nat, Seq<u32>)>) -> ((nat, Seq<u32>, nat), Seq<PrimitiveRange>)
    decreases prims.len(),
{
    if prims.len() == 0 {
        ((0, Seq::empty(), 0), Seq::empty())
    } else {
        let (before, ranges) = spec_layout(prims.drop_last());
        let (after, r) = spec_append(before, prims.last().0, prims.last().1);
        (after, ranges.push(r))
    }
}

/// All vertices of the primitives `prims` can be addressed by 32-bit
/// indices, and each primitive's own indices stay below its vertex count.
pub open spec fn indices_fit(prims: Seq<(nat, Seq<u32>)>) -> bool {
    &&& spec_layout(prims).0.0 <= u32::MAX + 1
    &&& forall|k: int, j: int|
        0 <= k < prims.len() && 0 <= j < prims[k].1.len() ==> #[trigger] prims[k].1[j]
            < prims[k].0
}

/// Primitives added one after another to empty buffers: their matrices take
/// consecutive 256-byte slots, their index ranges follow one another from
/// the start of the index buffer to its end (for as many matrices and
/// indices as 32-bit offsets reach), and, where each primitive's own
/// indices stay below its vertex count and all vertices can be addressed,
/// each index a primitive adds lies among that primitive's own vertices.
pub proof fn lemma_layout_walk(prims: Seq<(nat, Seq<u32>)>)
    requires
        prims.len() * 256 <= u32::MAX + 256,
        spec_layout(prims).0.1.len() <= u32::MAX,
    ensures
        ({
            let (fin, ranges) = spec_layout(prims);
            &&& fin.2 == prims.len()
            &&& ranges.len() == prims.len()
            &&& forall|k: int|
                0 <= k < prims.len() ==> (#[trigger] ranges[k]).offset_buffer == 256 * k
                    && ranges[k].count == prims[k].1.len()
            &&& prims.len() > 0 ==> ranges[0].start == 0
            &&& forall|k: int|
                0 <= k < prims.len() - 1 ==> #[trigger] ranges[k + 1].start == ranges[k].start
                    + ranges[k].count
            &&& prims.len() > 0 ==> ranges.last().start + ranges.last().count == fin.1.len()
            &&& indices_fit(prims) ==> forall|k: int, j: int|
                0 <= k < prims.len() && 0 <= j < prims[k].1.len() ==> {
                    let base = spec_layout(prims.take(k)).0.0;
                    base <= #[trigger] fin.1[ranges[k].start + j] < base + prims[k].0
                }
        }),
    decreases prims.len(),
{
    if prims.len() > 0 {
        let n = prims.len() - 1;
        let head = prims.drop_last();
        let (before, ranges0) = spec_layout(head);
        let (fin, ranges) = spec_layout(prims);
        let last = prims.last();
        if indices_fit(prims) {
            assert forall|k: int, j: int|
                0 <= k < head.len() && 0 <= j < head[k].1.len() implies #[trigger] head[k].1[j]
                < head[k].0 by {
                assert(head[k] == prims[k]);
            }
        }
        lemma_layout_walk(head);
        assert(prims.take(n) =~= head);
        assert forall|k: int| 0 <= k < n implies #[trigger] prims.take(k) =~= head.take(k) by {}
        assert(ranges =~= ranges0.push(spec_append(before, last.0, last.1).1));
        assert(fin.1 =~= before.1 + last.1.map_values(|i: u32| (i + (before.0 as u32)) as u32));
        assert forall|k: int, j: int|
            indices_fit(prims) && 0 <= k < prims.len() && 0 <= j < prims[k].1.len() implies {
                let base = spec_layout(prims.take(k)).0.0;
                base <= #[trigger] fin.1[ranges[k].start + j] < base + prims[k].0
            } by {
            if k < n {
                assert(head[k] == prims[k]);
                assert(ranges[k] == ranges0[k]);
                assert(ranges0[k].start + j < before.1.len()) by {
                    assert(ranges0[k].count == head[k].1.len());
                    assert(ranges0.last() == ranges0[n - 1]);
                    if k < n - 1 {
                        assert(ranges0[k + 1].start == ranges0[k].start + ranges0[k].count);
                        lemma_starts_grow(ranges0, k + 1, n - 1);
                    }
                }
                assert(fin.1[ranges[k].start + j] == before.1[ranges0[k].start + j]);
            } else {
                assert(ranges[k].start == before.1.len());
                assert(prims[k] == last);
                assert(last.1[j] < last.0);
                assert(fin.1[ranges[k].start + j] == (last.1[j] + (before.0 as u32)) as u32);
                assert(before.0 as u32 == before.0);
            }
        }
    }
}

/// In index ranges that follow one another, a later range starts no
/// earlier than an earlier one ends.
proof fn lemma_starts_grow(ranges: Seq<PrimitiveRange>, a: int, b: int)
    requires
        0 <= a <= b < ranges.len(),
        forall|k: int|
            0 <= k < ranges.len() - 1 ==> #[trigger] ranges[k + 1].start == ranges[k].start
                + ranges[k].count,
    ensures
        ranges[a].start <= ranges[b].start,
    decreases b - a,
{
    if a < b {
        lemma_starts_grow(ranges, a + 1, b);
        assert(ranges[a + 1].start == ranges[a].start + ranges[a].count);
    }
}

/// The indices a primitive adds address only its own vertices in the shared
/// buffer, where its own indices address only its own vertices.
pub proof fn lemma_indices_stay_in_primitive(local: Seq<u32>, base: usize, vertices: usize, i: int)
    requires
        0 <= i < local.len(),
        forall|k: int| 0 <= k < local.len() ==> #[trigger] local[k] < vertices,
        base + vertices <= u32::MAX + 1,
    ensures
        base <= local.map_values(|x: u32| (x + (base as u32)) as u32)[i] < base + vertices,
{
    assert(local[i] < vertices);
    assert((base as u32) as int == base);
}

/// How many positions and indices a primitive of a model declares, where it
/// declares them.
#[derive(Clone, Copy, PartialEq, Eq, Structural, Debug)]
pub struct PrimitiveCounts {
    pub positions: Option<usize>,
    pub indices: Option<usize>,
}

/// The sum of the declared position counts of `s` (an undeclared one counts 0).
pub open spec fn total_positions(s: Seq<PrimitiveCounts>) -> nat
    decreases s.len(),
{
    if s.len() == 0 {
        0
    } else {
        total_positions(s.drop_last()) + match s.last().positions {
            Some(n) => n as nat,
            None => 0,
        }
    }
}

/// The sum of the declared index counts of `s` (an undeclared one counts 0).
pub open spec fn total_indices(s: Seq<PrimitiveCounts>) -> nat
    decreases s.len(),
{
    if s.len() == 0 {
        0
    } else {
        total_indices(s.drop_last()) + match s.last().indices {
            Some(n) => n as nat,
            None => 0,
        }
    }
}

proof fn lemma_totals_monotone(s: Seq<PrimitiveCounts>, i: int)
    requires
        0 <= i <= s.len(),
    ensures
        total_positions(s.subrange(0, i)) <= total_positions(s),
        total_indices(s.subrange(0, i)) <= total_indices(s),
    decreases s.len() - i,
{
    if i < s.len() {
        lemma_totals_monotone(s, i + 1);
        assert(s.subrange(0, i + 1).drop_last() =~= s.subrange(0, i));
    } else {
        assert(s.subrange(0, i) =~= s);
    }
}

/// The numbers of vertices and indices of a whole model, to size its buffers.
pub fn geometry_totals(prims: &[PrimitiveCounts]) -> (r: (usize, usize))
    requires
        total_positions(prims@) <= usize::MAX,
        total_indices(prims@) <= usize::MAX,
    ensures
        r.0 == total_positions(prims@),
        r.1 == total_indices(prims@),
{
    let n = prims.len();
    let mut vertices: usize = 0;
    let mut indices: usize = 0;
    let mut i: usize = 0;
    while i < n
        invariant
            n == prims@.len(),
            i <= n,
            total_positions(prims@) <= usize::MAX,
            total_indices(prims@) <= usize::MAX,
            vertices == total_positions(prims@.subrange(0, i as int)),
            indices == total_indices(prims@.subrange(0, i as int)),
        decreases n - i,
    {
        proof {
            lemma_totals_monotone(prims@, i + 1);
            assert(prims@.subrange(0, i + 1).drop_last() =~= prims@.subrange(0, i as int));
        }
        match prims[i].positions {
            Some(c) => {
                vertices = vertices + c;
            },
            None => {},
        }
        match prims[i].indices {
            Some(c) => {
                indices = indices + c;
            },
            None => {},
        }
        i = i + 1;
    }
    assert(prims@.subrange(0, n as int) =~= prims@);
    (vertices, indices)
}

/// Where the baked (compressed, ready to upload) form of model `name` is kept.
pub fn baked_model_path(name: &str) -> (path: String)
    ensures
        path@ == "./assets/baked_models/"@ + name@ + ".model"@,
{
    let mut path = String::from_str("./assets/baked_models/");
    path.append(name);
    path.append(".model");
    path
}

/// Where the source glTF file of model `name` is kept.
pub fn source_model_path(name: &str) -> (path: String)
    ensures
        path@ == "./assets/models/"@ + name@ + ".glb"@,
{
    let mut path = String::from_str("./assets/models/");
    path.append(name);
    path.append(".glb");
    path
}

/// Where audio file `file` is kept.
pub fn audio_path(file: &str) -> (path: String)
    ensures
        path@ == "./assets/audio/"@ + file@,
{
    let mut path = String::from_str("./assets/audio/");
    path.append(file);
    path
}

/// A node of a model's scene graph as the import walk sees it: its index
/// among the model's nodes, for each primitive of its mesh whether that
/// primitive's material has an emissive texture (none for a node without a
/// mesh), and its children in order.
pub struct SceneNode {
    pub index: usize,
    pub emissive: Vec<bool>,
    pub children: Vec<SceneNode>,
}

/// A node that the import walk visits: the node's index, where in the walk
/// its parent was visited (none for a root of a scene), and how many of its
/// primitives, counted from the first, are imported.
#[derive(Clone, Copy, PartialEq, Eq, Structural, Debug)]
pub struct NodeVisit {
    pub node: usize,
    pub parent: Option<usize>,
    pub primitives: usize,
}

/// `r` primitives lead the flags `e` with an emissive texture each, and the
/// next one, if any, has none.
pub open spec fn leads_emissive(e: Seq<bool>, r: nat) -> bool {
    &&& r <= e.len()
    &&& forall|i: int| 0 <= i < r ==> #[trigger] e[i]
    &&& r < e.len() ==> !e[r as int]
}

/// The number of leading primitives with an emissive texture.
pub open spec fn spec_leading_emissive(e: Seq<bool>) -> nat {
    choose|r: nat| leads_emissive(e, r)
}

/// Exactly one number of primitives leads `e` with emissive textures.
pub proof fn lemma_leading_emissive(e: Seq<bool>, r: nat)
    requires
        leads_emissive(e, r),
    ensures
        spec_leading_emissive(e) == r,
{
    let c = spec_leading_emissive(e);
    assert(leads_emissive(e, c));
    if c < r {
        assert(e[c as int]);
    }
    if r < c {
        assert(e[r as int]);
    }
}

/// How many primitives, from the first, have an emissive texture.
pub fn leading_emissive(e: &[bool]) -> (r: usize)
    ensures
        r == spec_leading_emissive(e@),
{
    let n = e.len();
    let mut i: usize = 0;
    while i < n && e[i]
        invariant
            n == e@.len(),
            i <= n,
            forall|j: int| 0 <= j < i ==> #[trigger] e@[j],
        decreases n - i,
    {
        i = i + 1;
    }
    proof {
        lemma_leading_emissive(e@, i as nat);
    }
    i
}

/// The visits of the walk through node `n` and, while every primitive met
/// has an emissive texture, its descendants, the visit of `n` standing at
/// place `at` of the whole walk: `n`'s leading primitives with an emissive
/// texture are imported, and a primitive without one ends the walk through
/// `n`, leaving its later primitives and its children out.
pub open spec fn spec_visit(n: SceneNode, parent: Option<usize>, at: nat) -> Seq<NodeVisit>
    decreases n,
{
    let k = spec_leading_emissive(n.emissive@);
    let own = NodeVisit { node: n.index, parent, primitives: k as usize };
    if k == n.emissive@.len() {
        seq![own] + spec_visit_all(n.children@, Some(at as usize), at + 1)
    } else {
        seq![own]
    }
}

/// The visits of the walks through the nodes `ns`, one after another, from
/// place `at` of the whole walk; `parent` is where their parent was visited.
pub open spec fn spec_visit_all(ns: Seq<SceneNode>, parent: Option<usize>, at: nat) -> Seq<
    NodeVisit,
>
    decreases ns,
{
    if ns.len() == 0 {
        Seq::empty()
    } else {
        let init = spec_visit_all(ns.drop_last(), parent, at);
        init + spec_visit(ns.last(), parent, at + init.len())
    }
}

/// Appends to `out` the visits of the walk through `node`.
fn visit_node(node: &SceneNode, parent: Option<usize>, out: &mut Vec<NodeVisit>)
    ensures
        final(out)@ == old(out)@ + spec_visit(*node, parent, old(out)@.len()),
    decreases node,
{
    let at = out.len();
    let k = leading_emissive(node.emissive.as_slice());
    let own = NodeVisit { node: node.index, parent, primitives: k };
    out.push(own);
    if k == node.emissive.len() {
        let ghost start = out@;
        let n = node.children.len();
        let mut i: usize = 0;
        while i < n
            invariant
                n == node.children@.len(),
                i <= n,
                start == old(out)@.push(own),
                at == old(out)@.len(),
                out@ == start + spec_visit_all(node.children@.take(i as int), Some(at), (at + 1) as nat),
            decreases n - i,
        {
            visit_node(&node.children[i], Some(at), out);
            proof {
                let t = node.children@.take(i + 1);
                assert(t.drop_last() =~= node.children@.take(i as int));
                assert(t.last() == node.children@[i as int]);
            }
            i = i + 1;
        }
        proof {
            assert(node.children@.take(n as int) =~= node.children@);
        }
        assert(out@ =~= old(out)@ + spec_visit(*node, parent, old(out)@.len()));
    } else {
        assert(out@ =~= old(out)@ + spec_visit(*node, parent, old(out)@.len()));
    }
}

/// The nodes a model import visits, walking the scene roots `roots` in
/// order, each node before its children (see `spec_visit`).
pub fn import_plan(roots: &Vec<SceneNode>) -> (plan: Vec<NodeVisit>)
    ensures
        plan@ == spec_visit_all(roots@, None, 0),
{
    let mut plan: Vec<NodeVisit> = Vec::new();
    let n = roots.len();
    let mut i: usize = 0;
    while i < n
        invariant
            n == roots@.len(),
            i <= n,
            plan@ == spec_visit_all(roots@.take(i as int), None, 0),
        decreases n - i,
    {
        visit_node(&roots[i], None, &mut plan);
        proof {
            let t = roots@.take(i + 1);
            assert(t.drop_last() =~= roots@.take(i as int));
            assert(t.last() == roots@[i as int]);
        }
        i = i + 1;
    }
    assert(roots@.take(n as int) =~= roots@);
    plan
}

/// Each visit of `s`, a stretch of a walk starting at place `at`, hangs
/// either from `parent` or from an earlier visit of the stretch.
pub open spec fn parents_before(s: Seq<NodeVisit>, parent: Option<usize>, at: nat) -> bool {
    forall|k: int|
        0 <= k < s.len() ==> (#[trigger] s[k]).parent == parent || (s[k].parent matches Some(
            p,
        ) && at <= p < at + k)
}

proof fn lemma_visit_parents(n: SceneNode, parent: Option<usize>, at: nat)
    requires
        at + spec_visit(n, parent, at).len() <= usize::MAX + 1,
    ensures
        parents_before(spec_visit(n, parent, at), parent, at),
    decreases n,
{
    let k = spec_leading_emissive(n.emissive@);
    if k == n.emissive@.len() {
        let rest = spec_visit_all(n.children@, Some(at as usize), at + 1);
        lemma_visit_all_parents(n.children@, Some(at as usize), at + 1);
        let s = spec_visit(n, parent, at);
        assert forall|j: int| 0 < j < s.len() implies #[trigger] s[j] == rest[j - 1] by {}
    }
}

proof fn lemma_visit_all_parents(ns: Seq<SceneNode>, parent: Option<usize>, at: nat)
    requires
        at + spec_visit_all(ns, parent, at).len() <= usize::MAX + 1,
    ensures
        parents_before(spec_visit_all(ns, parent, at), parent, at),
    decreases ns,
{
    if ns.len() > 0 {
        let init = spec_visit_all(ns.drop_last(), parent, at);
        let last = spec_visit(ns.last(), parent, at + init.len());
        lemma_visit_all_parents(ns.drop_last(), parent, at);
        lemma_visit_parents(ns.last(), parent, at + init.len());
        let s = spec_visit_all(ns, parent, at);
        assert forall|j: int| 0 <= j < s.len() implies #[trigger] s[j] == if j < init.len() {
            init[j]
        } else {
            last[j - init.len()]
        } by {}
        assert forall|j: int| 0 <= j < s.len() implies (#[trigger] s[j]).parent == parent || (
        s[j].parent matches Some(p) && at <= p < at + j) by {
            if j < init.len() {
                assert(init[j] == s[j]);
            } else {
                assert(last[j - init.len()] == s[j]);
            }
        }
    }
}

/// In the walk planned for an import every node is visited after the node
/// it hangs from: a visit's parent is an earlier place of the walk, and
/// only the scene roots hang from none.
pub proof fn lemma_plan_parents_first(roots: Seq<SceneNode>)
    requires
        spec_visit_all(roots, None, 0).len() <= usize::MAX,
    ensures
        forall|k: int|
            0 <= k < spec_visit_all(roots, None, 0).len() ==> ((#[trigger] spec_visit_all(
                roots,
                None,
                0,
            )[k]).parent matches Some(p) ==> p < k),
{
    lemma_visit_all_parents(roots, None, 0);
}

/// The zstd frame that `zstd::stream::encode_all` makes of `data` at
/// compression level `level`.
pub uninterp spec fn zstd_frame(data: Seq<u8>, level: i32) -> Seq<u8>;

/// What `zstd::stream::decode_all` reads out of the bytes `frame`: the
/// content of the zstd frames they hold, or none where they are not frames
/// it accepts.
pub uninterp spec fn zstd_content(frame: Seq<u8>) -> Option<Seq<u8>>;

/// Compresses `data` into one zstd frame at level `level` with
/// `zstd::stream::encode_all`. Claimed: the call succeeds (with the data in
/// memory and the level clamped by zstd, only running out of memory could
/// make it fail), the frame is `zstd_frame` of the arguments (zstd
/// compresses deterministically for a version and its parameters), and
/// `decode_all` gives `data` back from it (zstd is lossless).
#[verifier::external_body]
fn zstd_encode(data: &[u8], level: i32) -> (frame: Option<Vec<u8>>)
    ensures
        frame is Some,
        frame matches Some(f) ==> f@ == zstd_frame(data@, level) && zstd_content(f@) == Some(
            data@,
        ),
{
    zstd::stream::encode_all(data, level).ok()
}

/// Decompresses the zstd frames in `frame` with `zstd::stream::decode_all`.
/// Claimed: what comes back is exactly `zstd_content` of the bytes: their
/// content where they hold frames it accepts (only running out of memory
/// could make it fail there), `None` where they do not.
#[verifier::external_body]
fn zstd_decode(frame: &[u8]) -> (data: Option<Vec<u8>>)
    ensures
        data matches Some(d) ==> zstd_content(frame@) == Some(d@),
        data is None <==> zstd_content(frame@) is None,
{
    zstd::stream::decode_all(frame).ok()
}

/// Packs the serialised bytes of a baked model into the zstd frame that the
/// baked file holds, at compression level 8. Unpacking the frame gives the
/// bytes back.
pub fn pack_baked_model(payload: &[u8]) -> (frame: Option<Vec<u8>>)
    ensures
        frame is Some,
        frame matches Some(f) ==> f@ == zstd_frame(payload@, 8) && zstd_content(f@) == Some(
            payload@,
        ),
{
    zstd_encode(payload, 8)
}

/// Unpacks the bytes of a baked model file: the serialised model that its
/// zstd frames hold, `None` where they hold no frames.
pub fn unpack_baked_model(frame: &[u8]) -> (payload: Option<Vec<u8>>)
    ensures
        payload matches Some(p) ==> zstd_content(frame@) == Some(p@),
        zstd_content(frame@) matches Some(c) ==> (payload matches Some(p) && p@ == c),
        zstd_content(frame@) is None ==> payload is None,
{
    zstd_decode(frame)
}

/// A baked file read back gives what was packed into it: where packing
/// `payload` gave `frame` and unpacking `frame` gave `back`, the two agree.
pub proof fn lemma_baked_round_trip(payload: Seq<u8>, frame: Seq<u8>, back: Seq<u8>)
    requires
        zstd_content(frame) == Some(payload),
        zstd_content(frame) == Some(back),
    ensures
        back == payload,
{
}

/// What the import keeps of a primitive besides its floating-point bounds:
/// where its indices and matrix stand, and its texture.
#[derive(Clone, Copy, PartialEq, Eq, Structural, Debug)]
pub struct LoadedPrimitive {
    pub range: PrimitiveRange,
    pub texture_id: usize,
}

/// The index ranges of `p` follow one another from the start of an index
/// buffer of `total` indices to its end.
pub open spec fn ranges_tile(p: Seq<LoadedPrimitive>, total: nat) -> bool {
    &&& p.len() == 0 ==> total == 0
    &&& p.len() > 0 ==> p[0].range.start == 0 && p.last().range.start + p.last().range.count
        == total
    &&& forall|k: int|
        0 <= k < p.len() - 1 ==> #[trigger] p[k + 1].range.start == p[k].range.start
            + p[k].range.count
}

/// A model being imported: its shared buffers, its textures (by image, and
/// the baked ones in the order they were made), its primitives and their
/// door tags.
pub struct ModelLoad {
    pub layout: IndexLayout,
    pub textures: TextureCache,
    pub baked: Vec<BakedTexture>,
    pub primitives: Vec<LoadedPrimitive>,
    pub tags: Vec<IsDoor>,
}

impl ModelLoad {
    /// Every primitive has a tag and a matrix, the `k`-th matrix in the
    /// `k`-th 256-byte slot; every texture id names a baked texture; every
    /// door primitive has a door id; and, while the index count fits the
    /// 32-bit starts, the index ranges tile the index buffer.
    pub open spec fn wf(&self) -> bool {
        &&& self.textures.wf()
        &&& self.baked@.len() == self.textures.count
        &&& self.tags@.len() == self.primitives@.len()
        &&& self.layout.matrix_count == self.primitives@.len()
        &&& forall|k: int|
            0 <= k < self.primitives@.len() ==> (#[trigger] self.primitives@[k]).range.offset_buffer
                == (k as u32) * 256 && self.primitives@[k].texture_id < self.textures.count
        &&& door_tags_named(self.tags@)
        &&& self.layout.indices@.len() <= u32::MAX ==> ranges_tile(
            self.primitives@,
            self.layout.indices@.len(),
        )
    }

    /// Nothing imported yet.
    pub fn new() -> (r: ModelLoad)
        ensures
            r.wf(),
            r.layout.state() == (0nat, Seq::<u32>::empty(), 0nat),
            r.textures.slots@ == Map::<usize, usize>::empty(),
            r.textures.count == 0,
            r.baked@ == Seq::<BakedTexture>::empty(),
            r.primitives@ == Seq::<LoadedPrimitive>::empty(),
            r.tags@ == Seq::<IsDoor>::empty(),
    {
        ModelLoad {
            layout: IndexLayout::new(),
            textures: TextureCache::new(),
            baked: Vec::new(),
            primitives: Vec::new(),
            tags: Vec::new(),
        }
    }

    /// Whether the texture of `image` has been made already.
    pub fn has_texture(&self, image: usize) -> (r: bool)
        ensures
            r == self.textures.slots@.contains_key(image),
    {
        self.textures.slots.contains_key(&image)
    }

    /// Adds a primitive of a node with role `role`: `vertices` vertices,
    /// indices `local` counting from its own first vertex, and the texture of
    /// `image`, baked as `baked` where that texture is new. Returns where the
    /// primitive stands and its texture id.
    pub fn add_primitive(
        &mut self,
        vertices: usize,
        local: &[u32],
        image: usize,
        role: NodeRole,
        baked: Option<BakedTexture>,
    ) -> (r: LoadedPrimitive)
        requires
            old(self).wf(),
            baked is Some <==> !old(self).textures.slots@.contains_key(image),
            old(self).textures.count < usize::MAX,
            old(self).layout.vertex_count + vertices <= usize::MAX,
            old(self).layout.matrix_count < usize::MAX,
            (old(self).layout.matrix_count as u32) * 256 <= u32::MAX,
            forall|i: int|
                0 <= i < local@.len() ==> #[trigger] local@[i] + (old(self).layout.vertex_count as u32)
                    <= u32::MAX,
        ensures
            final(self).wf(),
            ({
                let (state, range) = spec_append(old(self).layout.state(), vertices as nat, local@);
                let (slots, count, answer) = TextureCache::spec_texture_for(
                    old(self).textures.slots@,
                    old(self).textures.count,
                    image,
                );
                &&& final(self).layout.state() == state
                &&& final(self).textures.slots@ == slots
                &&& final(self).textures.count == count
                &&& r == LoadedPrimitive { range, texture_id: answer.0 }
            }),
            final(self).primitives@ == old(self).primitives@.push(r),
            final(self).tags@ == old(self).tags@.push(spec_door_tag(role)),
            final(self).baked@ == match baked {
                Some(b) => old(self).baked@.push(b),
                None => old(self).baked@,
            },
    {
        let ghost before = self.primitives@;
        let ghost total = self.layout.indices@.len();
        let (texture_id, _) = self.textures.texture_for(image);
        match baked {
            Some(b) => self.baked.push(b),
            None => {},
        }
        let range = self.layout.append_primitive(vertices, local);
        let r = LoadedPrimitive { range, texture_id };
        self.primitives.push(r);
        self.tags.push(door_tag(role));
        proof {
            let n = before.len();
            let p = self.primitives@;
            assert forall|k: int| 0 <= k < p.len() implies (#[trigger] p[k]).range.offset_buffer == (
            k as u32) * 256 && p[k].texture_id < self.textures.count by {
                if k < n {
                    assert(p[k] == before[k]);
                }
            }
            assert forall|i: int| 0 <= i < self.tags@.len() && (#[trigger] self.tags@[i]).door
                implies self.tags@[i].id is Some by {
                if i < n {
                    assert(self.tags@[i] == old(self).tags@[i]);
                }
            }
            if self.layout.indices@.len() <= u32::MAX {
                assert(r.range.start == total);
                assert(r.range.count == local@.len());
                assert forall|k: int| 0 <= k < p.len() - 1 implies #[trigger] p[k + 1].range.start
                    == p[k].range.start + p[k].range.count by {
                    if k + 1 < n {
                        assert(p[k + 1] == before[k + 1]);
                        assert(p[k] == before[k]);
                    } else {
                        assert(p[k] == before.last());
                    }
                }
            }
        }
        r
    }

    /// Ends the import's walk over the scene graph: the door tags are
    /// settled by the door and hinge nodes met (see `DoorNodes::finish`), and
    /// the doors paired with their hinges are returned.
    pub fn finish_doors<D, L>(&mut self, nodes: &DoorNodes<D, L>) -> (pairs: Vec<DoorPair>)
        requires
            old(self).wf(),
            nodes.wf(),
        ensures
            final(self).wf(),
            final(self).layout == old(self).layout,
            final(self).textures == old(self).textures,
            final(self).baked@ == old(self).baked@,
            final(self).primitives@ == old(self).primitives@,
            if nodes.doors@.len() == 0 || nodes.locks@.len() == 0 {
                &&& pairs@ == Seq::<DoorPair>::empty()
                &&& final(self).tags@.len() == old(self).tags@.len()
                &&& forall|i: int|
                    0 <= i < old(self).tags@.len() ==> #[trigger] final(self).tags@[i] == (IsDoor {
                        door: false,
                        ..old(self).tags@[i]
                    })
            } else {
                &&& pairs@ == nodes.spec_pairs(nodes.locks@.len())
                &&& final(self).tags@ == old(self).tags@
            },
            forall|i: int|
                0 <= i < pairs@.len() ==> #[trigger] pairs@[i].lock < nodes.locks@.len()
                    && pairs@[i].door < nodes.doors@.len(),
    {
        nodes.finish(&mut self.tags)
    }
}

/// The law of a whole model import: where the model's indices fit the 32-bit
/// starts and its matrices the 32-bit offsets, the `k`-th primitive's matrix
/// stands at byte offset `256 * k`, there is one matrix per primitive, the
/// index ranges follow one another from 0 to the index count, every texture
/// id names a baked texture, and every door primitive carries a door id.
pub proof fn lemma_model_load(m: ModelLoad)
    requires
        m.wf(),
        m.layout.indices@.len() <= u32::MAX,
        m.primitives@.len() <= 0x100_0000,
    ensures
        m.layout.matrix_count == m.primitives@.len(),
        forall|k: int|
            0 <= k < m.primitives@.len() ==> (#[trigger] m.primitives@[k]).range.offset_buffer == 256
                * k && m.primitives@[k].texture_id < m.baked@.len(),
        m.primitives@.len() > 0 ==> m.primitives@[0].range.start == 0,
        forall|k: int|
            0 <= k < m.primitives@.len() - 1 ==> #[trigger] m.primitives@[k + 1].range.start
                == m.primitives@[k].range.start + m.primitives@[k].range.count,
        m.primitives@.len() > 0 ==> m.primitives@.last().range.start + m.primitives@.last().range.count
            == m.layout.indices@.len(),
        m.primitives@.len() == 0 ==> m.layout.indices@.len() == 0,
        forall|k: int| 0 <= k < m.tags@.len() && (#[trigger] m.tags@[k]).door ==> m.tags@[k].id is Some,
{
    assert forall|k: int| 0 <= k < m.primitives@.len() implies (#[trigger] m.primitives@[
        k
    ]).range.offset_buffer == 256 * k && m.primitives@[k].texture_id < m.baked@.len() by {
        assert(k as u32 == k);
    }
}

} // verus!
