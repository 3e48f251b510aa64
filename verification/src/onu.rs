use crate::command::omci::{WanMode, WanModeView};
use crate::olt::{Interface, InterfaceView};
use vstd::prelude::*;

verus! {

/// A VLAN, and how the unit gets its address on it, if it does.
#[derive(Debug, PartialEq, Eq)]
pub struct Vlan {
    pub id: u16,
    pub service: Option<WanMode>,
}

/// A VLAN as a mathematical value.
pub struct VlanView {
    pub id: u16,
    pub service: Option<WanModeView>,
}

impl View for Vlan {
    type V = VlanView;

    open spec fn view(&self) -> VlanView {
        VlanView {
            id: self.id,
            service: match self.service {
                None => None,
                Some(mode) => Some(mode@),
            },
        }
    }
}

impl Clone for Vlan {
    fn clone(&self) -> (out: Self)
        ensures
            out@ == self@,
    {
        let service = match &self.service {
            None => None,
            Some(mode) => Some(mode.clone()),
        };
        Vlan { id: self.id, service }
    }
}

/// One service of a unit: a VLAN and the limits of its traffic.
#[derive(Debug, PartialEq, Eq)]
pub struct OnuService {
    pub vlan: Vlan,
    pub upload: Option<String>,
    pub download: Option<String>,
}

/// A service as a mathematical value.
pub struct ServiceView {
    pub vlan: VlanView,
    pub upload: Option<Seq<char>>,
    pub download: Option<Seq<char>>,
}

impl View for OnuService {
    type V = ServiceView;

    open spec fn view(&self) -> ServiceView {
        ServiceView {
            vlan: self.vlan@,
            upload: match self.upload {
                None => None,
                Some(text) => Some(text@),
            },
            download: match self.download {
                None => None,
                Some(text) => Some(text@),
            },
        }
    }
}

impl Clone for OnuService {
    fn clone(&self) -> (out: Self)
        ensures
            out@ == self@,
    {
        let upload = match &self.upload {
            None => None,
            Some(text) => Some(text.clone()),
        };
        let download = match &self.download {
            None => None,
            Some(text) => Some(text.clone()),
        };
        OnuService { vlan: self.vlan.clone(), upload, download }
    }
}

/// A unit: where it stands, what it is, and the services it carries.
#[derive(Debug)]
pub struct Onu {
    interface: Interface,
    model: String,
    sn: String,
    services: Vec<OnuService>,
}

/// A unit as a mathematical value.
pub struct OnuView {
    pub interface: InterfaceView,
    pub model: Seq<char>,
    pub sn: Seq<char>,
    pub services: Seq<ServiceView>,
}

/// The services that a list of services stands for.
pub open spec fn service_views(v: Seq<OnuService>) -> Seq<ServiceView> {
    Seq::new(v.len(), |i: int| v[i]@)
}

impl View for Onu {
    type V = OnuView;

    closed spec fn view(&self) -> OnuView {
        OnuView {
            interface: self.interface@,
            model: self.model@,
            sn: self.sn@,
            services: service_views(self.services@),
        }
    }
}

impl Vlan {
    /// The VLAN `id`, with no way of access.
    pub fn new(id: u16) -> (out: Vlan)
        ensures
            out@ == (VlanView { id, service: None }),
    {
        Vlan { id, service: None }
    }

    /// Sets the way of access to PPPoE with these credentials, in place of
    /// whatever was set before.
    pub fn pppoe(&mut self, username: &str, password: &str)
        ensures
            final(self)@ == (VlanView {
                id: old(self).id,
                service: Some(WanModeView::PPPoE { username: username@, password: password@ }),
            }),
    {
        self.service = Some(
            WanMode::PPPoE {
                username: String::from_str(username),
                password: String::from_str(password),
            },
        );
    }

    /// Sets the way of access to DHCP, in place of whatever was set before.
    pub fn dhcp(&mut self)
        ensures
            final(self)@ == (VlanView { id: old(self).id, service: Some(WanModeView::Dhcp) }),
    {
        self.service = Some(WanMode::Dhcp);
    }
}

impl OnuService {
    /// A service on `vlan`, with no limit on its traffic.
    pub fn new(vlan: Vlan) -> (out: OnuService)
        ensures
            out@ == (ServiceView { vlan: vlan@, upload: None, download: None }),
    {
        OnuService { vlan, upload: None, download: None }
    }
}

impl Onu {
    /// A unit at `interface`, of hardware model `model`, with serial number
    /// `sn` and the services `services`.
    pub fn new(interface: Interface, model: &str, sn: &str, services: Vec<OnuService>) -> (out: Onu)
        ensures
            out@ == (OnuView {
                interface: interface@,
                model: model@,
                sn: sn@,
                services: service_views(services@),
            }),
    {
        Onu { interface, services, model: String::from_str(model), sn: String::from_str(sn) }
    }

    /// Where the unit stands.
    pub fn interface(&self) -> (out: &Interface)
        ensures
            out@ == self@.interface,
    {
        &self.interface
    }

    /// The unit's hardware model.
    pub fn model(&self) -> (out: &str)
        ensures
            out@ == self@.model,
    {
        self.model.as_str()
    }

    /// The unit's serial number.
    pub fn sn(&self) -> (out: &str)
        ensures
            out@ == self@.sn,
    {
        self.sn.as_str()
    }

    /// The unit's services.
    pub fn services(&self) -> (out: &Vec<OnuService>)
        ensures
            service_views(out@) == self@.services,
    {
        &self.services
    }

    /// Gives the unit the services `services`, in place of those it had.
    pub fn set_service(&mut self, services: Vec<OnuService>)
        ensures
            final(self)@ == (OnuView { services: service_views(services@), ..old(self)@ }),
    {
        self.services = services;
    }
}

} // verus!
