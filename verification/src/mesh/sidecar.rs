//! The listeners of a sidecar.
//!
//! Traffic to and from the local application is redirected to the inbound
//! and the outbound listener.

use vstd::prelude::*;
use vstd::string::*;

use crate::text::same;

verus! {

/// How traffic is captured.
#[derive(Debug, Clone, Copy, PartialEq, Eq, Structural)]
pub enum SidecarRedirectMode {
    /// The destination is rewritten to the listener's port.
    Iptables,
    /// The original destination is preserved.
    Tproxy,
}

/// The name of a redirect mode.
pub open spec fn mode_name(m: SidecarRedirectMode) -> Seq<char> {
    match m {
        SidecarRedirectMode::Iptables => "iptables"@,
        SidecarRedirectMode::Tproxy => "tproxy"@,
    }
}

/// The redirect mode of a name.
pub open spec fn mode_of(s: Seq<char>) -> Option<SidecarRedirectMode> {
    if s == "iptables"@ {
        Some(SidecarRedirectMode::Iptables)
    } else if s == "tproxy"@ {
        Some(SidecarRedirectMode::Tproxy)
    } else {
        None
    }
}

impl SidecarRedirectMode {
    /// The name used in configuration and logs.
    pub fn as_str(self) -> (s: &'static str)
        ensures
            s@ == mode_name(self),
    {
        match self {
            SidecarRedirectMode::Iptables => "iptables",
            SidecarRedirectMode::Tproxy => "tproxy",
        }
    }

    /// The redirect mode of a name; none for an unknown one.
    pub fn parse(s: &str) -> (r: Option<Self>)
        ensures
            r == mode_of(s@),
    {
        if same(s, "iptables") {
            Some(SidecarRedirectMode::Iptables)
        } else if same(s, "tproxy") {
            Some(SidecarRedirectMode::Tproxy)
        } else {
            None
        }
    }
}

/// The direction of the traffic that a listener handles.
#[derive(Debug, Clone, Copy, PartialEq, Eq, Structural)]
pub enum SidecarMode {
    /// Traffic to the local application.
    Inbound,
    /// Traffic from the local application to remote services.
    Outbound,
}

impl SidecarMode {
    /// The name used in metrics labels and logs.
    pub fn as_str(self) -> (s: &'static str)
        ensures
            s@ == match self {
                SidecarMode::Inbound => "inbound"@,
                SidecarMode::Outbound => "outbound"@,
            },
    {
        match self {
            SidecarMode::Inbound => "inbound",
            SidecarMode::Outbound => "outbound",
        }
    }
}

/// The configured listeners of a sidecar.
#[derive(Debug, Clone, PartialEq, Eq)]
pub struct MeshSidecarConfig {
    pub inbound_port: u16,
    pub outbound_port: u16,
    pub redirect_mode: String,
}

/// The resolved sidecar configuration.
#[derive(Debug, Clone, Copy, PartialEq, Eq)]
pub struct SidecarConfig {
    /// Whether the sidecar is enabled.
    pub enabled: bool,
    /// The inbound listener port.
    pub inbound_port: u16,
    /// The outbound listener port.
    pub outbound_port: u16,
    /// The redirect mode.
    pub redirect_mode: SidecarRedirectMode,
}

impl SidecarConfig {
    /// The configuration of a sidecar; an unknown redirect mode is the
    /// default one.
    pub fn from_config(cfg: &MeshSidecarConfig, enabled: bool) -> (c: Self)
        ensures
            c == (SidecarConfig {
                enabled,
                inbound_port: cfg.inbound_port,
                outbound_port: cfg.outbound_port,
                redirect_mode: match mode_of(cfg.redirect_mode@) {
                    Some(m) => m,
                    None => SidecarRedirectMode::Iptables,
                },
            }),
    {
        let redirect_mode = match SidecarRedirectMode::parse(cfg.redirect_mode.as_str()) {
            Some(m) => m,
            None => SidecarRedirectMode::Iptables,
        };
        SidecarConfig {
            enabled,
            inbound_port: cfg.inbound_port,
            outbound_port: cfg.outbound_port,
            redirect_mode,
        }
    }
}

/// The sidecar controller.
#[derive(Debug, Clone, Copy)]
pub struct SidecarController {
    config: SidecarConfig,
}

impl View for SidecarController {
    type V = SidecarConfig;

    closed spec fn view(&self) -> SidecarConfig {
        self.config
    }
}

impl SidecarController {
    /// A controller of a configuration.
    pub fn new(config: SidecarConfig) -> (c: Self)
        ensures
            c@ == config,
    {
        SidecarController { config }
    }

    /// The configuration.
    pub fn config(&self) -> (c: &SidecarConfig)
        ensures
            *c == self@,
    {
        &self.config
    }

    /// The inbound listener: its direction, port and redirect mode.
    pub fn inbound_listener(&self) -> (l: (SidecarMode, u16, SidecarRedirectMode))
        ensures
            l == (SidecarMode::Inbound, self@.inbound_port, self@.redirect_mode),
    {
        (SidecarMode::Inbound, self.config.inbound_port, self.config.redirect_mode)
    }

    /// The outbound listener: its direction, port and redirect mode.
    pub fn outbound_listener(&self) -> (l: (SidecarMode, u16, SidecarRedirectMode))
        ensures
            l == (SidecarMode::Outbound, self@.outbound_port, self@.redirect_mode),
    {
        (SidecarMode::Outbound, self.config.outbound_port, self.config.redirect_mode)
    }
}

/// The name of a redirect mode is read back as that mode.
pub proof fn law_redirect_mode_round_trips(m: SidecarRedirectMode)
    ensures
        mode_of(mode_name(m)) == Some(m),
{
    reveal_strlit("iptables");
    reveal_strlit("tproxy");
    assert("iptables"@.len() != "tproxy"@.len());
}

} // verus!
