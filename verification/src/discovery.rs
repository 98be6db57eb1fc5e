//! Collecting discovered cast receivers.
//!
//! The shell browses the LAN for cast services and hands every
//! resolved advertisement over as plain values; this module picks each
//! device's name and address and deduplicates by address.

use vstd::prelude::*;

verus! {

/// A discovered receiver: its friendly name and its IPv4 address.
#[derive(Clone, Debug)]
pub struct CastDeviceInfo {
    pub name: String,
    pub ip: String,
}

/// One advertised address of a service, as text, with its family.
pub struct AdAddress {
    pub is_ipv4: bool,
    pub text: String,
}

/// One resolved service advertisement: the friendly-name property when
/// the service carries one, the full service name, and its addresses.
pub struct ServiceAd {
    pub friendly_name: Option<String>,
    pub fullname: String,
    pub addresses: Vec<AdAddress>,
}

/// The name a device reports: its friendly name, else its full
/// service name.
pub open spec fn ad_name(ad: ServiceAd) -> Seq<char> {
    match ad.friendly_name {
        Some(n) => n@,
        None => ad.fullname@,
    }
}

/// The first IPv4 address among the advertised ones.
pub open spec fn first_v4(addrs: Seq<AdAddress>) -> Option<Seq<char>>
    decreases addrs.len(),
{
    if addrs.len() == 0 {
        None
    } else if addrs[0].is_ipv4 {
        Some(addrs[0].text@)
    } else {
        first_v4(addrs.drop_first())
    }
}

/// The devices a list of advertisements yields, as (name, address)
/// pairs: advertisements without an IPv4 address are dropped, and a
/// later advertisement of an already-seen address is dropped too.
pub open spec fn collect_rec(ads: Seq<ServiceAd>, seen: Seq<Seq<char>>) -> Seq<
    (Seq<char>, Seq<char>),
>
    decreases ads.len(),
{
    if ads.len() == 0 {
        seq![]
    } else {
        match first_v4(ads[0].addresses@) {
            Some(ip) => if seen.contains(ip) {
                collect_rec(ads.drop_first(), seen)
            } else {
                seq![(ad_name(ads[0]), ip)] + collect_rec(ads.drop_first(), seen.push(ip))
            },
            None => collect_rec(ads.drop_first(), seen),
        }
    }
}

pub open spec fn collect_spec(ads: Seq<ServiceAd>) -> Seq<(Seq<char>, Seq<char>)> {
    collect_rec(ads, seq![])
}

/// The (name, address) pairs of a device list.
pub open spec fn device_views(devs: Seq<CastDeviceInfo>) -> Seq<(Seq<char>, Seq<char>)> {
    devs.map_values(|d: CastDeviceInfo| (d.name@, d.ip@))
}

/// The addresses of a device list.
pub open spec fn ips_of(devs: Seq<CastDeviceInfo>) -> Seq<Seq<char>> {
    devs.map_values(|d: CastDeviceInfo| d.ip@)
}

/// The first IPv4 address among the advertised ones.
fn first_ipv4(addrs: &Vec<AdAddress>) -> (r: Option<String>)
    ensures
        match r {
            Some(ip) => first_v4(addrs@) == Some(ip@),
            None => first_v4(addrs@) is None,
        },
{
    proof {
        assert(addrs@.subrange(0, addrs@.len() as int) =~= addrs@);
    }
    let mut i: usize = 0;
    while i < addrs.len()
        invariant
            0 <= i <= addrs@.len(),
            first_v4(addrs@) == first_v4(addrs@.subrange(i as int, addrs@.len() as int)),
        decreases addrs.len() - i,
    {
        proof {
            let tail = addrs@.subrange(i as int, addrs@.len() as int);
            assert(tail[0] == addrs@[i as int]);
            assert(tail.drop_first() =~= addrs@.subrange(i + 1 as int, addrs@.len() as int));
        }
        if addrs[i].is_ipv4 {
            return Some(addrs[i].text.clone());
        }
        i = i + 1;
    }
    proof {
        assert(addrs@.subrange(addrs@.len() as int, addrs@.len() as int) =~= Seq::<
            AdAddress,
        >::empty());
    }
    None
}

/// Whether a device with this address was already collected.
fn has_ip(devices: &Vec<CastDeviceInfo>, ip: &String) -> (r: bool)
    ensures
        r == ips_of(devices@).contains(ip@),
{
    let mut j: usize = 0;
    while j < devices.len()
        invariant
            0 <= j <= devices@.len(),
            forall|k: int| 0 <= k < j ==> ips_of(devices@)[k] != ip@,
        decreases devices.len() - j,
    {
        proof {
            assert(ips_of(devices@)[j as int] == devices@[j as int].ip@);
        }
        if devices[j].ip == *ip {
            assert(ips_of(devices@).contains(ip@));
            return true;
        }
        j = j + 1;
    }
    assert(!ips_of(devices@).contains(ip@));
    false
}

/// Collects the discovered devices: one entry per IPv4 address, first
/// advertisement wins, named by the friendly name when one is
/// advertised and by the full service name otherwise.
pub fn collect_devices(ads: &Vec<ServiceAd>) -> (r: Vec<CastDeviceInfo>)
    ensures
        device_views(r@) == collect_spec(ads@),
{
    let mut devices: Vec<CastDeviceInfo> = Vec::new();
    proof {
        assert(ads@.subrange(0, ads@.len() as int) =~= ads@);
        assert(device_views(devices@) =~= Seq::<(Seq<char>, Seq<char>)>::empty());
        assert(ips_of(devices@) =~= Seq::<Seq<char>>::empty());
        assert(device_views(devices@) + collect_rec(ads@, ips_of(devices@)) =~= collect_spec(
            ads@,
        ));
    }
    let mut i: usize = 0;
    while i < ads.len()
        invariant
            0 <= i <= ads@.len(),
            collect_spec(ads@) == device_views(devices@) + collect_rec(
                ads@.subrange(i as int, ads@.len() as int),
                ips_of(devices@),
            ),
        decreases ads.len() - i,
    {
        proof {
            let tail = ads@.subrange(i as int, ads@.len() as int);
            assert(tail[0] == ads@[i as int]);
            assert(tail.drop_first() =~= ads@.subrange(i + 1 as int, ads@.len() as int));
        }
        match first_ipv4(&ads[i].addresses) {
            Option::Some(ip) => {
                if !has_ip(&devices, &ip) {
                    let name = match &ads[i].friendly_name {
                        Option::Some(n) => n.clone(),
                        Option::None => ads[i].fullname.clone(),
                    };
                    let ghost old_devices = devices@;
                    devices.push(CastDeviceInfo { name, ip });
                    proof {
                        assert(device_views(devices@) =~= device_views(old_devices) + seq![
                            (ad_name(ads@[i as int]), first_v4(ads@[i as int].addresses@)->0),
                        ]);
                        assert(ips_of(devices@) =~= ips_of(old_devices).push(
                            first_v4(ads@[i as int].addresses@)->0,
                        ));
                        assert(collect_spec(ads@) == device_views(devices@) + collect_rec(
                            ads@.subrange(i + 1 as int, ads@.len() as int),
                            ips_of(devices@),
                        ));
                    }
                }
            },
            Option::None => {},
        }
        i = i + 1;
    }
    proof {
        assert(ads@.subrange(ads@.len() as int, ads@.len() as int) =~= Seq::<ServiceAd>::empty());
        assert(device_views(devices@) + Seq::<(Seq<char>, Seq<char>)>::empty() =~= device_views(
            devices@,
        ));
    }
    devices
}

} // verus!
