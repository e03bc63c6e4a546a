use vstd::prelude::*;
use crate::value::{ObjectRef, QName, Value, Error, ClassRef};
use crate::function_object::Executable;

verus! {

/// How an own property is stored: directly, or in a numbered slot.
#[derive(Clone, Debug, PartialEq, Eq)]
pub enum Property {
    Stored(Value),
    Slot(usize),
}

/// A fixed slot: its value, and whether it may be overwritten.
#[derive(Clone, Debug, PartialEq, Eq)]
pub struct Slot {
    pub value: Value,
    pub is_final: bool,
}

/// The state every heap object has: its prototype link, its named properties
/// (in insertion order, each name once) and its fixed slots.
#[derive(Clone, Debug)]
pub struct ScriptObjectData {
    prototype: Option<ObjectRef>,
    class: Option<ClassRef>,
    properties: Vec<(QName, Property)>,
    slots: Vec<Slot>,
}

/// One heap cell: base object state and, for a callable, its executable code.
#[derive(Clone, Debug)]
pub struct FunctionObjectData {
    pub base: ScriptObjectData,
    pub code: Option<Executable>,
}

impl ScriptObjectData {
    pub closed spec fn prototype_spec(&self) -> Option<ObjectRef> {
        self.prototype
    }

    pub closed spec fn class_spec(&self) -> Option<ClassRef> {
        self.class
    }

    pub closed spec fn slot_count(&self) -> nat {
        self.slots@.len()
    }

    pub closed spec fn slot_spec(&self, i: int) -> Slot {
        self.slots@[i]
    }

    /// Names are unique, every slot property names an existing slot, and no
    /// two properties share a slot.
    pub closed spec fn wf(&self) -> bool {
        &&& forall|i: int, j: int|
            0 <= i < j < self.properties@.len() ==> self.properties@[i].0.key()
                != self.properties@[j].0.key()
        &&& forall|i: int|
            0 <= i < self.properties@.len() ==> (#[trigger] self.properties@[i].1 matches Property::Slot(s)
                ==> s < self.slots@.len())
        &&& forall|i: int, j: int|
            0 <= i < j < self.properties@.len() ==> (#[trigger] self.properties@[i].1 matches Property::Slot(a)
                ==> (#[trigger] self.properties@[j].1 matches Property::Slot(b) ==> a != b))
    }

    /// Every object handle held in a property or a slot names one of the
    /// first `n` objects of the heap.
    pub closed spec fn refs_within(&self, n: nat) -> bool {
        &&& forall|i: int|
            0 <= i < self.properties@.len() ==> (#[trigger] self.properties@[i].1 matches Property::Stored(v)
                ==> v.within(n))
        &&& forall|s: int| 0 <= s < self.slots@.len() ==> (#[trigger] self.slots@[s]).value.within(n)
    }

    /// Whether slot `id` holds a property of a name other than `k`.
    pub closed spec fn slot_taken(&self, id: int, k: (Seq<char>, Seq<char>)) -> bool {
        exists|i: int|
            0 <= i < self.properties@.len() && #[trigger] self.properties@[i].1 == Property::Slot(id as usize)
                && self.properties@[i].0.key() != k
    }

    /// Whether `k` names an own property.
    pub closed spec fn has_own_spec(&self, k: (Seq<char>, Seq<char>)) -> bool {
        exists|i: int| 0 <= i < self.properties@.len() && #[trigger] self.properties@[i].0.key() == k
    }

    closed spec fn entry_value(&self, i: int) -> Value {
        match self.properties@[i].1 {
            Property::Stored(v) => v,
            Property::Slot(s) => self.slots@[s as int].value,
        }
    }

    closed spec fn entry_final(&self, i: int) -> bool {
        match self.properties@[i].1 {
            Property::Slot(s) => self.slots@[s as int].is_final,
            Property::Stored(_) => false,
        }
    }

    /// The value of the own property named `k`, if there is one.
    pub closed spec fn own(&self, k: (Seq<char>, Seq<char>)) -> Option<Value> {
        if self.has_own_spec(k) {
            let i = choose|i: int|
                0 <= i < self.properties@.len() && #[trigger] self.properties@[i].0.key() == k;
            Some(self.entry_value(i))
        } else {
            None
        }
    }

    /// Whether the own property named `k` is a final slot.
    pub closed spec fn is_final_spec(&self, k: (Seq<char>, Seq<char>)) -> bool {
        if self.has_own_spec(k) {
            let i = choose|i: int|
                0 <= i < self.properties@.len() && #[trigger] self.properties@[i].0.key() == k;
            self.entry_final(i)
        } else {
            false
        }
    }

    /// A name that is not an own property has no own value and is not final.
    pub proof fn lemma_absent(&self, k: (Seq<char>, Seq<char>))
        requires
            !self.has_own_spec(k),
        ensures
            self.own(k) == None::<Value>,
            !self.is_final_spec(k),
    {
    }

    /// On state without own properties, no slot is taken.
    pub proof fn lemma_blank_slots_free(&self, id: int, k: (Seq<char>, Seq<char>))
        requires
            forall|k2| !(#[trigger] self.has_own_spec(k2)),
        ensures
            !self.slot_taken(id, k),
    {
        if self.slot_taken(id, k) {
            let i = choose|i: int|
                0 <= i < self.properties@.len() && #[trigger] self.properties@[i].1 == Property::Slot(id as usize)
                    && self.properties@[i].0.key() != k;
            assert(self.has_own_spec(self.properties@[i].0.key()));
        }
    }

    /// An own value holds only handles within `n` when the state does.
    pub proof fn lemma_own_within(&self, k: (Seq<char>, Seq<char>), n: nat)
        requires
            self.wf(),
            self.refs_within(n),
        ensures
            self.own(k) matches Some(v) ==> v.within(n),
    {
        if self.has_own_spec(k) {
            let i = choose|i: int| 0 <= i < self.properties@.len() && #[trigger] self.properties@[i].0.key() == k;
            let p = self.properties@[i].1;
            assert(p == self.properties@[i].1);
        }
    }

    /// Fresh state with the given prototype and class, and no properties.
    pub fn base_new(prototype: Option<ObjectRef>, class: Option<ClassRef>) -> (r: ScriptObjectData)
        ensures
            r.wf(),
            r.prototype_spec() == prototype,
            r.class_spec() == class,
            r.slot_count() == 0,
            forall|n: nat| #[trigger] r.refs_within(n),
            forall|k| !(#[trigger] r.has_own_spec(k)),
            forall|k| #[trigger] r.own(k) == None::<Value>,
            forall|k| !(#[trigger] r.is_final_spec(k)),
    {
        ScriptObjectData { prototype, class, properties: Vec::new(), slots: Vec::new() }
    }

    pub fn prototype(&self) -> (r: Option<ObjectRef>)
        ensures
            r == self.prototype_spec(),
    {
        self.prototype
    }

    /// The position of the property named `name`, if there is one.
    fn find(&self, name: &QName) -> (r: Option<usize>)
        requires
            self.wf(),
        ensures
            r.is_none() == !self.has_own_spec(name.key()),
            r matches Some(i) ==> i < self.properties@.len() && self.properties@[i as int].0.key()
                == name.key(),
    {
        let mut i: usize = 0;
        while i < self.properties.len()
            invariant
                i <= self.properties@.len(),
                forall|j: int| 0 <= j < i ==> self.properties@[j].0.key() != name.key(),
            decreases self.properties@.len() - i,
        {
            if self.properties[i].0.same_as(name) {
                return Some(i);
            }
            i = i + 1;
        }
        None
    }

    proof fn lemma_own_at(&self, i: int)
        requires
            self.wf(),
            0 <= i < self.properties@.len(),
        ensures
            self.has_own_spec(self.properties@[i].0.key()),
            self.own(self.properties@[i].0.key()) == Some(self.entry_value(i)),
            self.is_final_spec(self.properties@[i].0.key()) == self.entry_final(i),
    {
        let k = self.properties@[i].0.key();
        assert(self.has_own_spec(k));
        let c = choose|c: int| 0 <= c < self.properties@.len() && #[trigger] self.properties@[c].0.key() == k;
        assert(c == i);
    }

    /// When every entry not named `k` keeps its position, name, value and
    /// finality, and new entries are named `k`, the own properties other than
    /// `k` are as they were.
    proof fn lemma_frame(pre: &ScriptObjectData, post: &ScriptObjectData, k: (Seq<char>, Seq<char>))
        requires
            pre.wf(),
            post.wf(),
            forall|j: int|
                0 <= j < pre.properties@.len() && (#[trigger] pre.properties@[j]).0.key() != k ==> {
                    &&& j < post.properties@.len()
                    &&& post.properties@[j].0.key() == pre.properties@[j].0.key()
                    &&& post.entry_value(j) == pre.entry_value(j)
                    &&& post.entry_final(j) == pre.entry_final(j)
                },
            forall|j: int|
                0 <= j < post.properties@.len() && (#[trigger] post.properties@[j]).0.key() != k ==> j
                    < pre.properties@.len() && pre.properties@[j].0.key() == post.properties@[j].0.key(),
        ensures
            forall|k2|
                k2 != k ==> #[trigger] post.own(k2) == pre.own(k2) && post.has_own_spec(k2)
                    == pre.has_own_spec(k2) && post.is_final_spec(k2) == pre.is_final_spec(k2),
    {
        assert forall|k2| k2 != k implies #[trigger] post.own(k2) == pre.own(k2)
            && post.has_own_spec(k2) == pre.has_own_spec(k2)
            && post.is_final_spec(k2) == pre.is_final_spec(k2) by {
            if pre.has_own_spec(k2) {
                let j = choose|j: int| 0 <= j < pre.properties@.len() && #[trigger] pre.properties@[j].0.key() == k2;
                pre.lemma_own_at(j);
                post.lemma_own_at(j);
            }
            if post.has_own_spec(k2) {
                let j = choose|j: int| 0 <= j < post.properties@.len() && #[trigger] post.properties@[j].0.key() == k2;
                post.lemma_own_at(j);
                pre.lemma_own_at(j);
            }
        }
    }

    /// Whether an own property named `name` exists.
    pub fn has_own_property(&self, name: &QName) -> (r: bool)
        requires
            self.wf(),
        ensures
            r == self.has_own_spec(name.key()),
    {
        self.find(name).is_some()
    }

    /// The value of the own property named `name`, if there is one.
    pub fn get_own(&self, name: &QName) -> (r: Option<Value>)
        requires
            self.wf(),
        ensures
            r == self.own(name.key()),
    {
        match self.find(name) {
            Some(i) => {
                proof {
                    self.lemma_own_at(i as int);
                }
                match &self.properties[i].1 {
                    Property::Stored(v) => Some(v.copy()),
                    Property::Slot(s) => Some(self.slots[*s].value.copy()),
                }
            },
            None => None,
        }
    }

    /// Own properties other than `k` are as in `old`.
    pub open spec fn others_kept(&self, old: &ScriptObjectData, k: (Seq<char>, Seq<char>)) -> bool {
        &&& self.prototype_spec() == old.prototype_spec()
        &&& self.class_spec() == old.class_spec()
        &&& forall|k2|
            k2 != k ==> #[trigger] self.own(k2) == old.own(k2) && self.has_own_spec(k2)
                == old.has_own_spec(k2) && self.is_final_spec(k2) == old.is_final_spec(k2)
    }

    /// Writes the own property named `name`: a stored property or a slot is
    /// overwritten, a missing one is added; a final slot refuses the write.
    pub fn set_own(&mut self, name: QName, value: Value) -> (r: Result<(), Error>)
        requires
            old(self).wf(),
        ensures
            final(self).wf(),
            r is Err <==> old(self).is_final_spec(name.key()),
            r is Err ==> r == Err::<(), Error>(Error::ReadOnlyProperty) && *final(self) == *old(self),
            r is Ok ==> final(self).own(name.key()) == Some(value) && !final(self).is_final_spec(name.key())
                && final(self).others_kept(old(self), name.key()),
            final(self).slot_count() == old(self).slot_count(),
            forall|n: nat| old(self).refs_within(n) && value.within(n) ==> #[trigger] final(self).refs_within(n),
    {
        let ghost k = name.key();
        let ghost pre = *self;
        let ghost v = value;
        let pos = match self.find(&name) {
            Some(i) => {
                proof {
                    self.lemma_own_at(i as int);
                }
                match self.properties[i].1 {
                    Property::Slot(s) => {
                        if self.slots[s].is_final {
                            return Err(Error::ReadOnlyProperty);
                        }
                        self.slots.set(s, Slot { value, is_final: false });
                    },
                    Property::Stored(_) => {
                        self.properties.set(i, (name, Property::Stored(value)));
                    },
                }
                i
            },
            None => {
                self.properties.push((name, Property::Stored(value)));
                self.properties.len() - 1
            },
        };
        proof {
            assert(self.properties@[pos as int].0.key() == k);
            assert(self.wf());
            self.lemma_own_at(pos as int);
            ScriptObjectData::lemma_frame(&pre, self, k);
            assert forall|n: nat| pre.refs_within(n) && v.within(n) implies #[trigger] self.refs_within(n) by {
                assert forall|j: int| 0 <= j < self.properties@.len() implies (#[trigger] self.properties@[j].1
                    matches Property::Stored(w) ==> w.within(n)) by {
                    if j < pre.properties@.len() && j != pos {
                        assert(self.properties@[j] == pre.properties@[j]);
                    }
                }
            }
        }
        Ok(())
    }

    /// Installs the property `name` in slot `id`, holding `value`; slots below
    /// `id` that did not exist yet are added empty. A property of that name
    /// that existed is replaced, and a slot is never shared by two names.
    pub fn install_slot(&mut self, name: QName, id: usize, value: Value, is_final: bool)
        requires
            old(self).wf(),
            id < usize::MAX,
            !old(self).slot_taken(id as int, name.key()),
        ensures
            final(self).wf(),
            final(self).slot_count() == if id < old(self).slot_count() { old(self).slot_count() } else { (id + 1) as nat },
            final(self).slot_spec(id as int) == (Slot { value, is_final }),
            final(self).own(name.key()) == Some(value),
            final(self).has_own_spec(name.key()),
            final(self).is_final_spec(name.key()) == is_final,
            final(self).others_kept(old(self), name.key()),
            forall|n: nat| old(self).refs_within(n) && value.within(n) ==> #[trigger] final(self).refs_within(n),
    {
        let ghost k = name.key();
        let ghost pre = *self;
        let ghost v = value;
        while self.slots.len() <= id
            invariant
                self.properties@ == pre.properties@,
                self.slots@.len() >= pre.slots@.len(),
                self.slots@.len() <= if pre.slots@.len() > id { pre.slots@.len() } else { (id + 1) as nat },
                id < usize::MAX,
                forall|s: int| 0 <= s < pre.slots@.len() ==> self.slots@[s] == pre.slots@[s],
                forall|s: int| pre.slots@.len() <= s < self.slots@.len() ==> self.slots@[s] == (Slot { value: Value::Undefined, is_final: false }),
                self.prototype == pre.prototype,
                self.class == pre.class,
            decreases id + 1 - self.slots@.len(),
        {
            self.slots.push(Slot { value: Value::Undefined, is_final: false });
        }
        self.slots.set(id, Slot { value, is_final });
        let pos = match self.find(&name) {
            Some(i) => {
                self.properties.set(i, (name, Property::Slot(id)));
                i
            },
            None => {
                self.properties.push((name, Property::Slot(id)));
                self.properties.len() - 1
            },
        };
        proof {
            assert forall|j: int| 0 <= j < pre.properties@.len() && j != pos implies
                (#[trigger] pre.properties@[j]).1 != Property::Slot(id) by {
                if pre.properties@[j].1 == Property::Slot(id) {
                    if pre.properties@[j].0.key() != k {
                        assert(pre.slot_taken(id as int, k));
                    }
                }
            }
            assert(self.properties@[pos as int].0.key() == k);
            assert(self.wf());
            self.lemma_own_at(pos as int);
            ScriptObjectData::lemma_frame(&pre, self, k);
            assert forall|n: nat| pre.refs_within(n) && v.within(n) implies #[trigger] self.refs_within(n) by {
                assert forall|j: int| 0 <= j < self.properties@.len() implies (#[trigger] self.properties@[j].1
                    matches Property::Stored(w) ==> w.within(n)) by {
                    if j < pre.properties@.len() && j != pos {
                        assert(self.properties@[j] == pre.properties@[j]);
                    }
                }
                assert forall|s: int| 0 <= s < self.slots@.len() implies (#[trigger] self.slots@[s]).value.within(n) by {
                    if s < pre.slots@.len() && s != id {
                        assert(self.slots@[s] == pre.slots@[s]);
                    }
                }
            }
        }
    }
}

/// The object heap: every object ever allocated, named by its position.
/// Objects are never removed, so a handle stays valid once issued. Reads take
/// `&Heap` and writes `&mut Heap`, so an operation that only reads is seen
/// from its signature to leave every object as it was.
pub struct Heap {
    objects: Vec<FunctionObjectData>,
}

/// The well-known prototypes that construction links new objects to.
#[derive(Clone, Copy, Debug, PartialEq, Eq, Structural)]
pub struct Prototypes {
    /// The root plain-object prototype.
    pub object: ObjectRef,
    /// The prototype of every function object.
    pub function: ObjectRef,
}

/// The value found for `k` by walking the prototype chain from `o`, taking at
/// most `fuel` steps; `None` when no member defines it.
pub closed spec fn lookup(heap: Seq<FunctionObjectData>, o: ObjectRef, k: (Seq<char>, Seq<char>), fuel: nat) -> Option<Value>
    decreases fuel,
{
    if fuel == 0 || o.index >= heap.len() {
        None
    } else {
        match heap[o.index as int].base.own(k) {
            Some(v) => Some(v),
            None => match heap[o.index as int].base.prototype_spec() {
                Some(p) => lookup(heap, p, k, (fuel - 1) as nat),
                None => None,
            },
        }
    }
}

impl View for Heap {
    type V = Seq<FunctionObjectData>;

    closed spec fn view(&self) -> Seq<FunctionObjectData> {
        self.objects@
    }
}

/// Whether `d` may stand at position `i` of a heap of `n` objects: its state
/// is well formed, its prototype was allocated before it, and every handle it
/// holds names one of the `n` objects.
pub open spec fn cell_ok(d: FunctionObjectData, i: int, n: nat) -> bool {
    &&& d.base.wf()
    &&& d.base.prototype_spec() matches Some(p) ==> p.index < i
    &&& d.base.refs_within(n)
    &&& d.code matches Some(e) ==> (e.receiver matches Some(r) ==> r.index < n)
}

impl Heap {
    /// Every object is well formed, links to a prototype allocated before it
    /// (so no prototype chain has a cycle), and holds handles to objects of
    /// this heap only.
    pub open spec fn wf(&self) -> bool {
        forall|i: int| 0 <= i < self@.len() ==> cell_ok(#[trigger] self@[i], i, self@.len())
    }

    pub open spec fn contains(&self, o: ObjectRef) -> bool {
        o.index < self@.len()
    }

    /// The prototype link of `o`.
    pub open spec fn proto_of(&self, o: ObjectRef) -> Option<ObjectRef> {
        self@[o.index as int].base.prototype_spec()
    }

    /// The own property `k` of `o`.
    pub open spec fn own_of(&self, o: ObjectRef, k: (Seq<char>, Seq<char>)) -> Option<Value> {
        self@[o.index as int].base.own(k)
    }

    /// The value read for `k` on `o`: the first definer along the prototype
    /// chain decides, and `Undefined` stands for a name no member defines.
    /// A chain has at most as many members as the heap has objects.
    pub open spec fn property(&self, o: ObjectRef, k: (Seq<char>, Seq<char>)) -> Value {
        match lookup(self@, o, k, self@.len()) {
            Some(v) => v,
            None => Value::Undefined,
        }
    }

    /// `new` is `old` after a successful write of `v` to the own property `k` of `o`:
    /// only that object changed, and in it only that property.
    pub open spec fn written(old: Heap, new: Heap, o: ObjectRef, k: (Seq<char>, Seq<char>), v: Value) -> bool {
        &&& new.wf()
        &&& new@.len() == old@.len()
        &&& forall|j: int| 0 <= j < old@.len() && j != o.index ==> new@[j] == old@[j]
        &&& new.own_of(o, k) == Some(v)
        &&& !new@[o.index as int].base.is_final_spec(k)
        &&& new@[o.index as int].base.others_kept(&old@[o.index as int].base, k)
        &&& new@[o.index as int].code == old@[o.index as int].code
    }

    pub fn new() -> (r: Heap)
        ensures
            r.wf(),
            r@ == Seq::<FunctionObjectData>::empty(),
    {
        Heap { objects: Vec::new() }
    }

    pub fn len(&self) -> (r: usize)
        ensures
            r == self@.len(),
    {
        self.objects.len()
    }

    /// Places `data` in a new cell and returns its handle. Its prototype and
    /// the handles it holds must name objects already allocated.
    pub fn allocate(&mut self, data: FunctionObjectData) -> (r: ObjectRef)
        requires
            old(self).wf(),
            cell_ok(data, old(self)@.len() as int, old(self)@.len()),
        ensures
            final(self).wf(),
            final(self)@ == old(self)@.push(data),
            r.index == old(self)@.len(),
    {
        let ghost pre = self@;
        self.objects.push(data);
        proof {
            assert forall|i: int| 0 <= i < self@.len() implies cell_ok(#[trigger] self@[i], i, self@.len()) by {
                if i < pre.len() {
                    assert(cell_ok(pre[i], i, pre.len()));
                    assert(self@[i] == pre[i]);
                }
            }
        }
        ObjectRef { index: self.objects.len() - 1 }
    }

    /// The cell named by `o`.
    pub fn get(&self, o: ObjectRef) -> (r: &FunctionObjectData)
        requires
            self.contains(o),
        ensures
            *r == self@[o.index as int],
    {
        &self.objects[o.index]
    }

    /// Whether `o` itself defines `name`.
    pub fn has_own_property(&self, o: ObjectRef, name: &QName) -> (r: bool)
        requires
            self.wf(),
            self.contains(o),
        ensures
            r == self@[o.index as int].base.has_own_spec(name.key()),
    {
        self.objects[o.index].base.has_own_property(name)
    }

    /// Reads `name` on `o`, falling back along the prototype chain.
    pub fn get_property(&self, o: ObjectRef, name: &QName) -> (r: Value)
        requires
            self.wf(),
        ensures
            r == self.property(o, name.key()),
    {
        let ghost k = name.key();
        let mut cur = o;
        let mut fuel: usize = self.objects.len();
        while fuel > 0 && cur.index < self.objects.len()
            invariant
                self.wf(),
                k == name.key(),
                lookup(self@, o, k, self@.len()) == lookup(self@, cur, k, fuel as nat),
            decreases fuel,
        {
            let d = &self.objects[cur.index];
            assert(*d == self@[cur.index as int]);
            assert(lookup(self@, cur, k, fuel as nat) == match d.base.own(k) {
                Some(v) => Some(v),
                None => match d.base.prototype_spec() {
                    Some(p) => lookup(self@, p, k, (fuel - 1) as nat),
                    None => None,
                },
            });
            match d.base.get_own(name) {
                Some(v) => {
                    return v;
                },
                None => match d.base.prototype() {
                    Some(p) => {
                        cur = p;
                        fuel = fuel - 1;
                    },
                    None => {
                        return Value::Undefined;
                    },
                },
            }
        }
        Value::Undefined
    }

    /// Installs `name` on `o` in slot `id`, holding `value`.
    pub fn install_slot(&mut self, o: ObjectRef, name: QName, id: usize, value: Value, is_final: bool)
        requires
            old(self).wf(),
            old(self).contains(o),
            value.within(old(self)@.len()),
            id < usize::MAX,
            !old(self)@[o.index as int].base.slot_taken(id as int, name.key()),
        ensures
            final(self).wf(),
            final(self)@.len() == old(self)@.len(),
            forall|j: int| 0 <= j < old(self)@.len() && j != o.index ==> final(self)@[j] == old(self)@[j],
            final(self).own_of(o, name.key()) == Some(value),
            final(self)@[o.index as int].base.has_own_spec(name.key()),
            final(self)@[o.index as int].base.is_final_spec(name.key()) == is_final,
            final(self)@[o.index as int].base.slot_spec(id as int) == (Slot { value, is_final }),
            final(self)@[o.index as int].base.others_kept(&old(self)@[o.index as int].base, name.key()),
            final(self)@[o.index as int].code == old(self)@[o.index as int].code,
    {
        let ghost pre = self@;
        self.objects[o.index].base.install_slot(name, id, value, is_final);
        proof {
            assert(cell_ok(pre[o.index as int], o.index as int, pre.len()));
            assert forall|i: int| 0 <= i < self@.len() implies cell_ok(#[trigger] self@[i], i, self@.len()) by {
                if i != o.index {
                    assert(cell_ok(pre[i], i, pre.len()));
                }
            }
        }
    }

    /// Writes `name` on `o` itself; a final slot refuses the write and nothing changes.
    pub fn set_property(&mut self, o: ObjectRef, name: QName, value: Value) -> (r: Result<(), Error>)
        requires
            old(self).wf(),
            old(self).contains(o),
            value.within(old(self)@.len()),
        ensures
            final(self).wf(),
            r is Err <==> old(self)@[o.index as int].base.is_final_spec(name.key()),
            r is Err ==> r == Err::<(), Error>(Error::ReadOnlyProperty) && final(self)@ == old(self)@,
            r is Ok ==> Heap::written(*old(self), *final(self), o, name.key(), value),
    {
        let ghost pre = self@;
        let r = self.objects[o.index].base.set_own(name, value);
        proof {
            assert(cell_ok(pre[o.index as int], o.index as int, pre.len()));
            assert forall|i: int| 0 <= i < self@.len() implies cell_ok(#[trigger] self@[i], i, self@.len()) by {
                if i != o.index {
                    assert(cell_ok(pre[i], i, pre.len()));
                }
            }
            if r is Err {
                assert(self@ =~= pre);
            }
        }
        r
    }
}

impl Prototypes {
    /// Allocates the root object prototype and the function prototype, which
    /// inherits from it.
    pub fn new(heap: &mut Heap) -> (r: Prototypes)
        requires
            old(heap).wf(),
        ensures
            final(heap).wf(),
            final(heap)@.len() == old(heap)@.len() + 2,
            forall|j: int| 0 <= j < old(heap)@.len() ==> final(heap)@[j] == old(heap)@[j],
            r.object.index == old(heap)@.len(),
            r.function.index == old(heap)@.len() + 1,
            final(heap).proto_of(r.object) == None::<ObjectRef>,
            final(heap).proto_of(r.function) == Some(r.object),
            final(heap)@[r.object.index as int].code.is_none(),
            final(heap)@[r.function.index as int].code.is_none(),
            forall|k| final(heap).own_of(r.object, k) == None::<Value>,
            forall|k| final(heap).own_of(r.function, k) == None::<Value>,
    {
        let object = heap.allocate(FunctionObjectData { base: ScriptObjectData::base_new(None, None), code: None });
        let function = heap.allocate(
            FunctionObjectData { base: ScriptObjectData::base_new(Some(object), None), code: None },
        );
        Prototypes { object, function }
    }
}

/// On a heap without prototype cycles, any fuel beyond the position of `o`
/// gives the same lookup: a chain from `o` has at most `o.index + 1` members.
proof fn lemma_lookup_fuel(heap: Heap, o: ObjectRef, k: (Seq<char>, Seq<char>), f: nat, g: nat)
    requires
        heap.wf(),
        o.index < f,
        o.index < g,
    ensures
        lookup(heap@, o, k, f) == lookup(heap@, o, k, g),
    decreases o.index,
{
    if o.index < heap@.len() {
        assert(cell_ok(heap@[o.index as int], o.index as int, heap@.len()));
        if let Some(p) = heap@[o.index as int].base.prototype_spec() {
            lemma_lookup_fuel(heap, p, k, (f - 1) as nat, (g - 1) as nat);
        }
    }
}

/// A lookup finds only handles to objects of the heap.
proof fn lemma_lookup_within(heap: Heap, o: ObjectRef, k: (Seq<char>, Seq<char>), f: nat)
    requires
        heap.wf(),
    ensures
        lookup(heap@, o, k, f) matches Some(v) ==> v.within(heap@.len()),
    decreases f,
{
    if f > 0 && o.index < heap@.len() {
        assert(cell_ok(heap@[o.index as int], o.index as int, heap@.len()));
        heap@[o.index as int].base.lemma_own_within(k, heap@.len());
        if let Some(p) = heap@[o.index as int].base.prototype_spec() {
            lemma_lookup_within(heap, p, k, (f - 1) as nat);
        }
    }
}

/// What reading a name gives holds only handles to objects of the heap.
pub proof fn lemma_property_within(heap: Heap, o: ObjectRef, k: (Seq<char>, Seq<char>))
    requires
        heap.wf(),
    ensures
        heap.property(o, k).within(heap@.len()),
{
    lemma_lookup_within(heap, o, k, heap@.len());
}

/// An own property is what reading its name gives: it shadows the chain.
pub proof fn lemma_own_property_read(heap: Heap, o: ObjectRef, k: (Seq<char>, Seq<char>), v: Value)
    requires
        heap.contains(o),
        heap.own_of(o, k) == Some(v),
    ensures
        heap.property(o, k) == v,
{
    reveal_with_fuel(lookup, 1);
}

/// A name that `o` does not define is read on `o`'s prototype `p`.
pub proof fn lemma_lookup_step(heap: Heap, o: ObjectRef, p: ObjectRef, k: (Seq<char>, Seq<char>))
    requires
        heap.wf(),
        heap.contains(o),
        heap.own_of(o, k) == None::<Value>,
        heap.proto_of(o) == Some(p),
    ensures
        heap.property(o, k) == heap.property(p, k),
{
    assert(cell_ok(heap@[o.index as int], o.index as int, heap@.len()));
    let n = heap@.len();
    assert(lookup(heap@, o, k, n) == lookup(heap@, p, k, (n - 1) as nat));
    lemma_lookup_fuel(heap, p, k, (n - 1) as nat, n);
}

/// A name that a chain's last member `o` does not define reads as `Undefined`.
pub proof fn lemma_lookup_root(heap: Heap, o: ObjectRef, k: (Seq<char>, Seq<char>))
    requires
        heap.contains(o),
        heap.own_of(o, k) == None::<Value>,
        heap.proto_of(o) == None::<ObjectRef>,
    ensures
        heap.property(o, k) == Value::Undefined,
{
    reveal_with_fuel(lookup, 1);
}

/// Reading a name walks the prototype chain: when `a`'s prototype is `b`,
/// `b`'s is `c`, and only `c` defines `k`, reading `k` on `a` gives `c`'s value.
pub proof fn lemma_chain_lookup(heap: Heap, a: ObjectRef, b: ObjectRef, c: ObjectRef, k: (Seq<char>, Seq<char>), v: Value)
    requires
        heap.wf(),
        heap.contains(a),
        heap.contains(b),
        heap.contains(c),
        heap.proto_of(a) == Some(b),
        heap.proto_of(b) == Some(c),
        heap.own_of(a, k) == None::<Value>,
        heap.own_of(b, k) == None::<Value>,
        heap.own_of(c, k) == Some(v),
    ensures
        heap.property(a, k) == v,
        heap.property(b, k) == v,
{
    lemma_lookup_step(heap, a, b, k);
    lemma_lookup_step(heap, b, c, k);
    lemma_own_property_read(heap, c, k, v);
}

/// Writing a name on `a`, where `a`'s prototype is `b`, `b`'s is `c`, and
/// only `c` defined it, makes it an own property of `a` and leaves `b` and `c`,
/// and what reading the name on `b` gives, as they were.
pub proof fn lemma_write_stays_own(
    before: Heap,
    after: Heap,
    a: ObjectRef,
    b: ObjectRef,
    c: ObjectRef,
    k: (Seq<char>, Seq<char>),
    v: Value,
    w: Value,
)
    requires
        before.wf(),
        before.contains(a),
        before.contains(b),
        before.contains(c),
        before.proto_of(a) == Some(b),
        before.proto_of(b) == Some(c),
        before.own_of(a, k) == None::<Value>,
        before.own_of(b, k) == None::<Value>,
        before.own_of(c, k) == Some(v),
        Heap::written(before, after, a, k, w),
    ensures
        after.own_of(a, k) == Some(w),
        after.property(a, k) == w,
        after@[b.index as int] == before@[b.index as int],
        after@[c.index as int] == before@[c.index as int],
        after.property(b, k) == v,
        after.proto_of(a) == before.proto_of(a),
{
    assert(cell_ok(before@[a.index as int], a.index as int, before@.len()));
    assert(cell_ok(before@[b.index as int], b.index as int, before@.len()));
    lemma_own_property_read(after, a, k, w);
    lemma_lookup_step(after, b, c, k);
    lemma_own_property_read(after, c, k, v);
}

} // verus!
