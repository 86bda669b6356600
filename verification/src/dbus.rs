//! What the filtering D-Bus sidecar needs: the proxy's rule list per bus, the
//! `.flatpak-info` portals identify the sandbox by, where portals look that
//! identity up, and where the filtered sockets live. The sandbox never
//! reaches a host bus itself.

pub mod identity;
pub mod plan;
pub mod bundle_laws;
pub mod bus_laws;
pub mod plan_laws;
pub mod proxy;
pub mod address;

pub use crate::dbus::address::{
    guarded_host_a11y_bus, guarded_host_bus, guarded_host_system_bus,
};
pub use crate::dbus::identity::{app_id, flatpak_info, flatpak_instance_id, is_valid_app_id};
pub use crate::dbus::plan::{plan, Plan, Rule, Section};
pub use crate::dbus::proxy::{
    app_bus_path, flatpak_instance_dir, proxy_bus_path, proxy_command, proxy_command_nodes,
    proxy_program, socket_dir, HostBuses,
};
