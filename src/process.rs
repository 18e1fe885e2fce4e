use vstd::prelude::*;

verus! {

/// The classification tag of a listening process.
#[derive(Debug, Clone, Copy, PartialEq, Eq, Structural)]
pub enum ProcessKind {
    System,
    Brew,
    Dev,
    Docker,
    Kubernetes,
    Other,
}

/// The short label shown for each kind.
pub open spec fn kind_label(k: ProcessKind) -> Seq<char> {
    match k {
        ProcessKind::System => "system"@,
        ProcessKind::Brew => "brew"@,
        ProcessKind::Dev => "dev"@,
        ProcessKind::Docker => "docker"@,
        ProcessKind::Kubernetes => "k8s"@,
        ProcessKind::Other => "other"@,
    }
}

impl ProcessKind {
    pub fn as_str(&self) -> (r: &'static str)
        ensures
            r@ == kind_label(*self),
    {
        match self {
            ProcessKind::System => "system",
            ProcessKind::Brew => "brew",
            ProcessKind::Dev => "dev",
            ProcessKind::Docker => "docker",
            ProcessKind::Kubernetes => "k8s",
            ProcessKind::Other => "other",
        }
    }
}

/// One process bound to one port, with what is known about it.
#[derive(Debug, Clone)]
pub struct ProcessInfo {
    pub pid: u32,
    pub user: String,
    pub uid: Option<u32>,
    pub cmd: String,
    pub cwd: String,
    pub project_root: Option<String>,
    pub container_name: Option<String>,
    pub kind: ProcessKind,
    pub port: u16,
}

impl ProcessInfo {
    /// Container evidence always decides the tag.
    pub open spec fn wf(&self) -> bool {
        self.container_name is Some ==> self.kind == ProcessKind::Docker
    }

    /// A field-by-field copy.
    pub fn copied(&self) -> (r: ProcessInfo)
        ensures
            r == *self,
    {
        ProcessInfo {
            pid: self.pid,
            user: self.user.clone(),
            uid: self.uid,
            cmd: self.cmd.clone(),
            cwd: self.cwd.clone(),
            project_root: copy_text(&self.project_root),
            container_name: copy_text(&self.container_name),
            kind: self.kind,
            port: self.port,
        }
    }
}

fn copy_text(s: &Option<String>) -> (r: Option<String>)
    ensures
        r == *s,
{
    match s {
        Some(t) => Some(t.clone()),
        None => None,
    }
}

} // verus!
