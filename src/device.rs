use vstd::prelude::*;

use crate::error::Error;

verus! {

/// The fields of a device descriptor that the catalog shows and orders by.
#[derive(Clone, Copy, Debug, PartialEq, Eq, Structural)]
pub struct DeviceDescriptor {
    pub vendor_id: u16,
    pub product_id: u16,
    pub class_code: u8,
    pub sub_class_code: u8,
    pub protocol_code: u8,
    pub num_configurations: u8,
}

/// One attached device as seen by a single enumeration pass.
#[derive(Debug)]
pub struct DeviceEntry {
    pub descriptor: DeviceDescriptor,
    pub bus_number: u8,
    pub address: u8,
    pub manufacturer: Option<String>,
    pub product: Option<String>,
    pub serial: Option<String>,
}

/// Catalog order: vendor id, product id, bus, address.
pub type SortKey = (u16, u16, u8, u8);

/// A descriptive string as shown: the placeholder "Unknown" when absent.
pub open spec fn text_or_unknown(s: Option<String>) -> Seq<char> {
    match s {
        Some(t) => t@,
        None => "Unknown"@,
    }
}

pub open spec fn key_of(e: DeviceEntry) -> SortKey {
    (e.descriptor.vendor_id, e.descriptor.product_id, e.bus_number, e.address)
}

/// Lexicographic "strictly before" on sort keys.
pub open spec fn key_lt(a: SortKey, b: SortKey) -> bool {
    a.0 < b.0 || (a.0 == b.0 && (a.1 < b.1 || (a.1 == b.1 && (a.2 < b.2 || (a.2 == b.2
        && a.3 < b.3)))))
}

pub open spec fn key_le(a: SortKey, b: SortKey) -> bool {
    key_lt(a, b) || a == b
}

/// `out` is `input` rearranged by the index map `perm` (`out[i]` is
/// `input[perm[i]]`), ascending by key, with entries of equal key kept in
/// their input order.
pub open spec fn stable_sort_by(input: Seq<DeviceEntry>, out: Seq<DeviceEntry>, perm: Seq<int>) -> bool {
    &&& out.len() == input.len()
    &&& perm.len() == input.len()
    &&& forall|i: int| 0 <= i < perm.len() ==> 0 <= #[trigger] perm[i] < input.len()
    &&& forall|i: int| 0 <= i < out.len() ==> #[trigger] out[i] == input[perm[i]]
    &&& forall|i: int, j: int| 0 <= i < j < perm.len() ==> perm[i] != perm[j]
    &&& forall|i: int, j: int|
        0 <= i < j < out.len() ==> key_lt(key_of(#[trigger] out[i]), key_of(#[trigger] out[j]))
            || (key_of(out[i]) == key_of(out[j]) && perm[i] < perm[j])
}

pub open spec fn is_stable_sort(input: Seq<DeviceEntry>, out: Seq<DeviceEntry>) -> bool {
    exists|perm: Seq<int>| stable_sort_by(input, out, perm)
}

/// The catalog order is total: of two keys exactly one is before the other,
/// unless all four fields are equal.
pub proof fn lemma_sort_key_total(a: DeviceEntry, b: DeviceEntry)
    ensures
        key_of(a) == key_of(b) <==> (a.descriptor.vendor_id == b.descriptor.vendor_id
            && a.descriptor.product_id == b.descriptor.product_id && a.bus_number == b.bus_number
            && a.address == b.address),
        key_lt(key_of(a), key_of(b)) || key_lt(key_of(b), key_of(a)) || key_of(a) == key_of(b),
        !(key_lt(key_of(a), key_of(b)) && key_lt(key_of(b), key_of(a))),
        !(key_lt(key_of(a), key_of(b)) && key_of(a) == key_of(b)),
{
}

/// A stable sort by key yields an ascending sequence that holds each input
/// entry exactly once, and entries whose keys are equal come out in the
/// order in which they went in.
pub proof fn lemma_stable_sort_sorted(input: Seq<DeviceEntry>, out: Seq<DeviceEntry>)
    requires
        is_stable_sort(input, out),
    ensures
        out.len() == input.len(),
        forall|i: int, j: int| 0 <= i < j < out.len() ==> key_le(key_of(out[i]), key_of(out[j])),
        exists|perm: Seq<int>|
            perm.len() == input.len() && (forall|i: int|
                0 <= i < out.len() ==> 0 <= #[trigger] perm[i] < input.len() && out[i]
                    == input[perm[i]]) && (forall|i: int, j: int|
                0 <= i < j < out.len() && key_of(out[i]) == key_of(out[j]) ==> #[trigger] perm[i]
                    < #[trigger] perm[j]) && (forall|i: int, j: int|
                0 <= i < j < out.len() ==> perm[i] != perm[j]),
{
    let perm = choose|perm: Seq<int>| stable_sort_by(input, out, perm);
    assert forall|i: int, j: int|
        0 <= i < j < out.len() && key_of(out[i]) == key_of(out[j]) implies #[trigger] perm[i]
        < #[trigger] perm[j] by {
        assert(key_lt(key_of(out[i]), key_of(out[j])) || (key_of(out[i]) == key_of(out[j])
            && perm[i] < perm[j]));
    }
    assert forall|i: int, j: int| 0 <= i < j < out.len() implies key_le(
        key_of(out[i]),
        key_of(out[j]),
    ) by {
        assert(key_lt(key_of(out[i]), key_of(out[j])) || (key_of(out[i]) == key_of(out[j])
            && perm[i] < perm[j]));
    }
}

fn key_less(a: SortKey, b: SortKey) -> (r: bool)
    ensures
        r == key_lt(a, b),
{
    a.0 < b.0 || (a.0 == b.0 && (a.1 < b.1 || (a.1 == b.1 && (a.2 < b.2 || (a.2 == b.2 && a.3
        < b.3)))))
}

/// Sorts the entries by catalog key, keeping entries of equal key in the
/// order in which they came.
pub fn sort_devices(entries: Vec<DeviceEntry>) -> (r: Vec<DeviceEntry>)
    ensures
        is_stable_sort(entries@, r@),
{
    let ghost input = entries@;
    let ghost mut perm: Seq<int> = Seq::empty();
    let mut rest = entries;
    let mut out: Vec<DeviceEntry> = Vec::new();
    let n = rest.len();
    let mut k: usize = 0;
    while k < n
        invariant
            n == input.len(),
            k <= n,
            rest@ == input.subrange(k as int, n as int),
            out.len() == k,
            perm.len() == k,
            forall|i: int| 0 <= i < perm.len() ==> 0 <= #[trigger] perm[i] < k,
            forall|i: int| 0 <= i < out.len() ==> #[trigger] out@[i] == input[perm[i]],
            forall|i: int, j: int| 0 <= i < j < perm.len() ==> perm[i] != perm[j],
            forall|i: int, j: int|
                0 <= i < j < out.len() ==> key_lt(
                    key_of(#[trigger] out@[i]),
                    key_of(#[trigger] out@[j]),
                ) || (key_of(out@[i]) == key_of(out@[j]) && perm[i] < perm[j]),
        decreases n - k,
    {
        let item = rest.remove(0);
        assert(item == input[k as int]);
        let key = item.sort_key();
        let mut pos: usize = 0;
        while pos < out.len() && !key_less(key, out[pos].sort_key())
            invariant
                pos <= out.len(),
                key == key_of(item),
                forall|i: int| 0 <= i < pos ==> !key_lt(key_of(item), key_of(#[trigger] out@[i])),
            decreases out.len() - pos,
        {
            pos = pos + 1;
        }
        // Everything from `pos` on is after `item`: the prefix is sorted.
        assert forall|i: int| pos <= i < out.len() implies key_lt(
            key_of(item),
            key_of(#[trigger] out@[i]),
        ) by {
            if i > pos {
                assert(key_lt(key_of(out@[pos as int]), key_of(out@[i])) || key_of(out@[pos as int])
                    == key_of(out@[i]));
            }
        }
        let ghost old_out = out@;
        let ghost old_perm = perm;
        out.insert(pos, item);
        proof {
            perm = old_perm.insert(pos as int, k as int);
            assert forall|i: int, j: int| 0 <= i < j < out.len() implies key_lt(
                key_of(#[trigger] out@[i]),
                key_of(#[trigger] out@[j]),
            ) || (key_of(out@[i]) == key_of(out@[j]) && perm[i] < perm[j]) by {
                if j < pos {
                } else if j == pos {
                    assert(!key_lt(key_of(item), key_of(old_out[i])));
                } else if i < pos {
                    assert(key_lt(key_of(old_out[i]), key_of(old_out[j - 1])) || (key_of(old_out[i])
                        == key_of(old_out[j - 1]) && old_perm[i] < old_perm[j - 1]));
                } else if i == pos {
                    assert(key_lt(key_of(item), key_of(old_out[j - 1])));
                } else {
                    assert(key_lt(key_of(old_out[i - 1]), key_of(old_out[j - 1])) || (key_of(
                        old_out[i - 1],
                    ) == key_of(old_out[j - 1]) && old_perm[i - 1] < old_perm[j - 1]));
                }
            }
            assert forall|i: int, j: int| 0 <= i < j < perm.len() implies perm[i] != perm[j] by {
                if i < pos && j > pos {
                    assert(old_perm[i] != old_perm[j - 1]);
                } else if i > pos {
                    assert(old_perm[i - 1] != old_perm[j - 1]);
                }
            }
            assert forall|i: int| 0 <= i < out.len() implies #[trigger] out@[i] == input[perm[i]] by {
                if i > pos {
                    assert(out@[i] == old_out[i - 1]);
                }
            }
            assert(rest@ =~= input.subrange(k + 1, n as int));
        }
        k = k + 1;
    }
    assert(stable_sort_by(input, out@, perm));
    out
}

/// The catalog offered for the first selection: the enumerated entries in
/// catalog order; an empty enumeration is `NoDevices`.
pub fn device_catalog(entries: Vec<DeviceEntry>) -> (r: Result<Vec<DeviceEntry>, Error>)
    ensures
        entries@.len() == 0 <==> r == Err::<Vec<DeviceEntry>, Error>(Error::NoDevices),
        entries@.len() > 0 <==> r is Ok,
        r is Ok ==> is_stable_sort(entries@, r->Ok_0@),
{
    if entries.len() == 0 {
        return Err(Error::NoDevices);
    }
    Ok(sort_devices(entries))
}

impl DeviceEntry {
    /// Builds an entry; `None` when the device descriptor could not be read,
    /// so that such a device is skipped.
    pub fn from_device(
        descriptor: Option<DeviceDescriptor>,
        bus_number: u8,
        address: u8,
        manufacturer: Option<String>,
        product: Option<String>,
        serial: Option<String>,
    ) -> (r: Option<DeviceEntry>)
        ensures
            descriptor is None <==> r is None,
            r is Some ==> (r->0).descriptor == descriptor->0 && (r->0).bus_number == bus_number
                && (r->0).address == address && (r->0).manufacturer == manufacturer
                && (r->0).product == product && (r->0).serial == serial,
    {
        match descriptor {
            Some(descriptor) => Some(
                DeviceEntry { descriptor, bus_number, address, manufacturer, product, serial },
            ),
            None => None,
        }
    }

    pub fn sort_key(&self) -> (r: SortKey)
        ensures
            r == key_of(*self),
    {
        (self.descriptor.vendor_id, self.descriptor.product_id, self.bus_number, self.address)
    }

    pub fn vendor_id(&self) -> (r: u16)
        ensures
            r == self.descriptor.vendor_id,
    {
        self.descriptor.vendor_id
    }

    pub fn product_id(&self) -> (r: u16)
        ensures
            r == self.descriptor.product_id,
    {
        self.descriptor.product_id
    }

    pub fn bus_number(&self) -> (r: u8)
        ensures
            r == self.bus_number,
    {
        self.bus_number
    }

    pub fn address(&self) -> (r: u8)
        ensures
            r == self.address,
    {
        self.address
    }

    pub fn class_code(&self) -> (r: u8)
        ensures
            r == self.descriptor.class_code,
    {
        self.descriptor.class_code
    }

    pub fn sub_class_code(&self) -> (r: u8)
        ensures
            r == self.descriptor.sub_class_code,
    {
        self.descriptor.sub_class_code
    }

    pub fn protocol_code(&self) -> (r: u8)
        ensures
            r == self.descriptor.protocol_code,
    {
        self.descriptor.protocol_code
    }

    pub fn num_configurations(&self) -> (r: u8)
        ensures
            r == self.descriptor.num_configurations,
    {
        self.descriptor.num_configurations
    }

    /// The manufacturer string, or "Unknown" when the device gave none.
    pub fn manufacturer_str(&self) -> (r: &str)
        ensures
            r@ == text_or_unknown(self.manufacturer),
    {
        match &self.manufacturer {
            Some(s) => s.as_str(),
            None => "Unknown",
        }
    }

    /// The product string, or "Unknown" when the device gave none.
    pub fn product_str(&self) -> (r: &str)
        ensures
            r@ == text_or_unknown(self.product),
    {
        match &self.product {
            Some(s) => s.as_str(),
            None => "Unknown",
        }
    }

    pub fn serial(&self) -> (r: Option<&str>)
        ensures
            r is Some <==> self.serial is Some,
            r is Some ==> r->0@ == (self.serial->0)@,
    {
        match &self.serial {
            Some(s) => Some(s.as_str()),
            None => None,
        }
    }
}

} // verus!
