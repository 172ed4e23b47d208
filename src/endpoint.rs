use vstd::prelude::*;

use crate::error::Error;

verus! {

/// Transfer type of an endpoint as coded in the low two bits of its
/// attributes.
#[derive(Clone, Copy, Debug, PartialEq, Eq, Structural)]
pub enum EndpointKind {
    Control,
    Isochronous,
    Bulk,
    Interrupt,
}

/// The transfer types that the read loop can serve.
#[derive(Clone, Copy, Debug, PartialEq, Eq, Structural)]
pub enum TransferType {
    Bulk,
    Interrupt,
}

/// An endpoint descriptor: its address byte (bit 7 set for device-to-host)
/// and its attributes byte.
#[derive(Clone, Copy, Debug, PartialEq, Eq, Structural)]
pub struct EndpointDescriptor {
    pub address: u8,
    pub attributes: u8,
}

/// One alternate setting of one interface, with its endpoint descriptors in
/// descriptor order.
#[derive(Debug)]
pub struct AltSetting {
    pub interface_number: u8,
    pub alternate_setting: u8,
    pub endpoints: Vec<EndpointDescriptor>,
}

/// A configuration of a device, its alternate settings ordered by interface
/// number and then by alternate setting.
#[derive(Debug)]
pub struct ConfigRecord {
    pub configuration_value: u8,
    pub num_interfaces: u8,
    /// Maximum power draw in the descriptor's units of 2 mA.
    pub max_power: u8,
    pub is_active: bool,
    pub alt_settings: Vec<AltSetting>,
}

/// An IN endpoint of a supported transfer type, with where it lives.
#[derive(Clone, Copy, Debug, PartialEq, Eq, Structural)]
pub struct Endpoint {
    pub interface: u8,
    pub setting: u8,
    pub address: u8,
    pub transfer_type: TransferType,
}

pub open spec fn is_in_address(address: u8) -> bool {
    address >= 0x80
}

pub open spec fn kind_of(attributes: u8) -> EndpointKind {
    if attributes % 4 == 0 {
        EndpointKind::Control
    } else if attributes % 4 == 1 {
        EndpointKind::Isochronous
    } else if attributes % 4 == 2 {
        EndpointKind::Bulk
    } else {
        EndpointKind::Interrupt
    }
}

/// The descriptors that the catalog keeps: device-to-host, bulk or interrupt.
pub open spec fn retained(d: EndpointDescriptor) -> bool {
    is_in_address(d.address) && (kind_of(d.attributes) == EndpointKind::Bulk || kind_of(
        d.attributes,
    ) == EndpointKind::Interrupt)
}

pub open spec fn endpoint_of(interface: u8, setting: u8, d: EndpointDescriptor) -> Endpoint {
    Endpoint {
        interface,
        setting,
        address: d.address,
        transfer_type: if kind_of(d.attributes) == EndpointKind::Bulk {
            TransferType::Bulk
        } else {
            TransferType::Interrupt
        },
    }
}

/// The kept endpoints of one alternate setting, in descriptor order.
pub open spec fn in_endpoints_of_alt(interface: u8, setting: u8, ds: Seq<EndpointDescriptor>) -> Seq<
    Endpoint,
>
    decreases ds.len(),
{
    if ds.len() == 0 {
        Seq::empty()
    } else {
        let rest = in_endpoints_of_alt(interface, setting, ds.drop_last());
        if retained(ds.last()) {
            rest.push(endpoint_of(interface, setting, ds.last()))
        } else {
            rest
        }
    }
}

/// The kept endpoints of a sequence of alternate settings, in order.
pub open spec fn in_endpoints(alts: Seq<AltSetting>) -> Seq<Endpoint>
    decreases alts.len(),
{
    if alts.len() == 0 {
        Seq::empty()
    } else {
        let a = alts.last();
        in_endpoints(alts.drop_last()) + in_endpoints_of_alt(
            a.interface_number,
            a.alternate_setting,
            a.endpoints@,
        )
    }
}

/// Whatever the descriptors, every endpoint that the catalog keeps of one
/// alternate setting is an IN endpoint and is Bulk or Interrupt as its
/// descriptor says.
pub proof fn lemma_alt_endpoints_are_in(interface: u8, setting: u8, ds: Seq<EndpointDescriptor>)
    ensures
        forall|i: int|
            0 <= i < in_endpoints_of_alt(interface, setting, ds).len() ==> {
                let e = #[trigger] in_endpoints_of_alt(interface, setting, ds)[i];
                &&& is_in_address(e.address)
                &&& e.interface == interface
                &&& e.setting == setting
                &&& exists|k: int|
                    0 <= k < ds.len() && retained(ds[k]) && e == endpoint_of(interface, setting, ds[k])
            },
    decreases ds.len(),
{
    if ds.len() > 0 {
        lemma_alt_endpoints_are_in(interface, setting, ds.drop_last());
        let rest = in_endpoints_of_alt(interface, setting, ds.drop_last());
        let all = in_endpoints_of_alt(interface, setting, ds);
        assert forall|i: int| 0 <= i < all.len() implies {
            let e = #[trigger] all[i];
            &&& is_in_address(e.address)
            &&& e.interface == interface
            &&& e.setting == setting
            &&& exists|k: int|
                0 <= k < ds.len() && retained(ds[k]) && e == endpoint_of(interface, setting, ds[k])
        } by {
            if i < rest.len() {
                assert(all[i] == rest[i]);
                let k = choose|k: int|
                    0 <= k < ds.drop_last().len() && retained(ds.drop_last()[k]) && rest[i]
                        == endpoint_of(interface, setting, ds.drop_last()[k]);
                assert(ds[k] == ds.drop_last()[k]);
            } else {
                assert(retained(ds.last()));
                assert(ds[ds.len() - 1] == ds.last());
            }
        }
    }
}

/// Whatever the configuration, the catalog holds no OUT endpoint: every
/// endpoint in it comes from a device-to-host descriptor of type Bulk or
/// Interrupt of one of the alternate settings.
pub proof fn lemma_catalog_only_in_endpoints(alts: Seq<AltSetting>)
    ensures
        forall|i: int|
            0 <= i < in_endpoints(alts).len() ==> {
                let e = #[trigger] in_endpoints(alts)[i];
                &&& is_in_address(e.address)
                &&& exists|a: int, k: int|
                    0 <= a < alts.len() && 0 <= k < alts[a].endpoints@.len() && retained(
                        alts[a].endpoints@[k],
                    ) && e == endpoint_of(
                        alts[a].interface_number,
                        alts[a].alternate_setting,
                        alts[a].endpoints@[k],
                    )
            },
    decreases alts.len(),
{
    if alts.len() > 0 {
        let init = alts.drop_last();
        let a = alts.last();
        lemma_catalog_only_in_endpoints(init);
        lemma_alt_endpoints_are_in(a.interface_number, a.alternate_setting, a.endpoints@);
        let rest = in_endpoints(init);
        let tail = in_endpoints_of_alt(a.interface_number, a.alternate_setting, a.endpoints@);
        let all = in_endpoints(alts);
        assert(all == rest + tail);
        assert forall|i: int| 0 <= i < all.len() implies {
            let e = #[trigger] all[i];
            &&& is_in_address(e.address)
            &&& exists|x: int, k: int|
                0 <= x < alts.len() && 0 <= k < alts[x].endpoints@.len() && retained(
                    alts[x].endpoints@[k],
                ) && e == endpoint_of(
                    alts[x].interface_number,
                    alts[x].alternate_setting,
                    alts[x].endpoints@[k],
                )
        } by {
            if i < rest.len() {
                assert(all[i] == rest[i]);
                let (x, k) = choose|x: int, k: int|
                    0 <= x < init.len() && 0 <= k < init[x].endpoints@.len() && retained(
                        init[x].endpoints@[k],
                    ) && rest[i] == endpoint_of(
                        init[x].interface_number,
                        init[x].alternate_setting,
                        init[x].endpoints@[k],
                    );
                assert(alts[x] == init[x]);
            } else {
                assert(all[i] == tail[i - rest.len()]);
                let k = choose|k: int|
                    0 <= k < a.endpoints@.len() && retained(a.endpoints@[k]) && tail[i - rest.len()]
                        == endpoint_of(a.interface_number, a.alternate_setting, a.endpoints@[k]);
                assert(alts[alts.len() - 1] == a);
            }
        }
    }
}

impl EndpointDescriptor {
    pub fn is_in(&self) -> (r: bool)
        ensures
            r == is_in_address(self.address),
    {
        self.address >= 0x80
    }

    pub fn kind(&self) -> (r: EndpointKind)
        ensures
            r == kind_of(self.attributes),
    {
        let bits = self.attributes % 4;
        if bits == 0 {
            EndpointKind::Control
        } else if bits == 1 {
            EndpointKind::Isochronous
        } else if bits == 2 {
            EndpointKind::Bulk
        } else {
            EndpointKind::Interrupt
        }
    }
}

impl Endpoint {
    /// Every IN endpoint of type Bulk or Interrupt of the configuration,
    /// ordered by alternate setting and then by descriptor order.
    pub fn collect_in_endpoints(config: &ConfigRecord) -> (r: Vec<Endpoint>)
        ensures
            r@ == in_endpoints(config.alt_settings@),
    {
        let alts = &config.alt_settings;
        let mut out: Vec<Endpoint> = Vec::new();
        let mut i: usize = 0;
        while i < alts.len()
            invariant
                i <= alts.len(),
                out@ == in_endpoints(alts@.subrange(0, i as int)),
            decreases alts.len() - i,
        {
            let alt = &alts[i];
            let ghost base = out@;
            let mut j: usize = 0;
            while j < alt.endpoints.len()
                invariant
                    j <= alt.endpoints.len(),
                    out@ == base + in_endpoints_of_alt(
                        alt.interface_number,
                        alt.alternate_setting,
                        alt.endpoints@.subrange(0, j as int),
                    ),
                decreases alt.endpoints.len() - j,
            {
                let d = alt.endpoints[j];
                let ghost before = alt.endpoints@.subrange(0, j as int);
                assert(alt.endpoints@.subrange(0, j + 1).drop_last() =~= before);
                if d.is_in() {
                    let kind = d.kind();
                    if kind == EndpointKind::Bulk {
                        out.push(
                            Endpoint {
                                interface: alt.interface_number,
                                setting: alt.alternate_setting,
                                address: d.address,
                                transfer_type: TransferType::Bulk,
                            },
                        );
                    } else if kind == EndpointKind::Interrupt {
                        out.push(
                            Endpoint {
                                interface: alt.interface_number,
                                setting: alt.alternate_setting,
                                address: d.address,
                                transfer_type: TransferType::Interrupt,
                            },
                        );
                    }
                }
                proof {
                    assert(out@ =~= base + in_endpoints_of_alt(
                        alt.interface_number,
                        alt.alternate_setting,
                        alt.endpoints@.subrange(0, j + 1),
                    ));
                }
                j = j + 1;
            }
            assert(alt.endpoints@.subrange(0, j as int) =~= alt.endpoints@);
            assert(alts@.subrange(0, i + 1).drop_last() =~= alts@.subrange(0, i as int));
            i = i + 1;
        }
        assert(alts@.subrange(0, i as int) =~= alts@);
        out
    }

    pub fn interface(&self) -> (r: u8)
        ensures
            r == self.interface,
    {
        self.interface
    }

    pub fn setting(&self) -> (r: u8)
        ensures
            r == self.setting,
    {
        self.setting
    }

    pub fn address(&self) -> (r: u8)
        ensures
            r == self.address,
    {
        self.address
    }

    pub fn transfer_type(&self) -> (r: TransferType)
        ensures
            r == self.transfer_type,
    {
        self.transfer_type
    }

    pub fn transfer_type_str(&self) -> (r: &'static str)
        ensures
            self.transfer_type == TransferType::Bulk ==> r@ == "Bulk"@,
            self.transfer_type == TransferType::Interrupt ==> r@ == "Interrupt"@,
    {
        match self.transfer_type {
            TransferType::Bulk => "Bulk",
            TransferType::Interrupt => "Interrupt",
        }
    }
}

/// The endpoints offered for the last selection; a configuration without
/// any is `NoEndpoints`.
pub fn endpoint_catalog(config: &ConfigRecord) -> (r: Result<Vec<Endpoint>, Error>)
    ensures
        in_endpoints(config.alt_settings@).len() == 0 <==> r == Err::<Vec<Endpoint>, Error>(
            Error::NoEndpoints,
        ),
        in_endpoints(config.alt_settings@).len() > 0 <==> r is Ok,
        r is Ok ==> r->Ok_0@ == in_endpoints(config.alt_settings@),
{
    let endpoints = Endpoint::collect_in_endpoints(config);
    if endpoints.len() == 0 {
        return Err(Error::NoEndpoints);
    }
    Ok(endpoints)
}

/// `out` is `configs` with each configuration marked active exactly when its
/// value is the device's active configuration value.
pub open spec fn marked_active(configs: Seq<ConfigRecord>, out: Seq<ConfigRecord>, active: Option<u8>) -> bool {
    &&& out.len() == configs.len()
    &&& forall|i: int|
        0 <= i < out.len() ==> {
            let (c, o) = (configs[i], #[trigger] out[i]);
            &&& o.configuration_value == c.configuration_value
            &&& o.num_interfaces == c.num_interfaces
            &&& o.max_power == c.max_power
            &&& o.alt_settings@ == c.alt_settings@
            &&& o.is_active == (active == Some(c.configuration_value))
        }
}

/// The configurations offered for the second selection, each marked active
/// or not against the device's active configuration value; a device without
/// any is `NoConfigurations`.
pub fn configuration_catalog(configs: Vec<ConfigRecord>, active: Option<u8>) -> (r: Result<
    Vec<ConfigRecord>,
    Error,
>)
    ensures
        configs@.len() == 0 <==> r == Err::<Vec<ConfigRecord>, Error>(Error::NoConfigurations),
        configs@.len() > 0 <==> r is Ok,
        r is Ok ==> marked_active(configs@, r->Ok_0@, active),
{
    if configs.len() == 0 {
        return Err(Error::NoConfigurations);
    }
    let ghost input = configs@;
    let n = configs.len();
    let mut rest = configs;
    let mut out: Vec<ConfigRecord> = Vec::new();
    let mut k: usize = 0;
    while k < n
        invariant
            n == input.len(),
            k <= n,
            rest@ == input.subrange(k as int, n as int),
            out.len() == k,
            forall|i: int|
                0 <= i < k ==> {
                    let (c, o) = (input[i], #[trigger] out@[i]);
                    &&& o.configuration_value == c.configuration_value
                    &&& o.num_interfaces == c.num_interfaces
                    &&& o.max_power == c.max_power
                    &&& o.alt_settings@ == c.alt_settings@
                    &&& o.is_active == (active == Some(c.configuration_value))
                },
        decreases n - k,
    {
        let mut c = rest.remove(0);
        assert(c == input[k as int]);
        c.is_active = match active {
            Some(v) => v == c.configuration_value,
            None => false,
        };
        out.push(c);
        assert(rest@ =~= input.subrange(k + 1, n as int));
        k = k + 1;
    }
    Ok(out)
}

impl ConfigRecord {
    /// Maximum power draw in milliamps.
    pub fn max_power_ma(&self) -> (r: u16)
        ensures
            r == 2 * self.max_power,
    {
        2 * (self.max_power as u16)
    }
}

} // verus!
