//! What the user can ask for, as operations on packages and as commands in the terminal.
use vstd::prelude::*;

use crate::command::{arguments_for, command_for, is_installing, is_removing,
    updating_everything_names_nothing};
use crate::number::{decimal, decimal_text};
use crate::selection::TerminalCommand;
use crate::text::{own, own_all, push_text, same_text, texts, trim_text, trimmed};

verus! {

// ---------------------------------------------------------------------------
// Operations on packages

/// An operation on packages that runs with progress: its title, the action, the packages and their
/// backend.
#[derive(Debug, Clone)]
pub struct ManagedOperation {
    pub title: String,
    pub action: String,
    pub names: Vec<String>,
    pub backend: i32,
}

/// An operation on packages that runs with progress.
pub struct OperationModel {
    pub title: Seq<char>,
    pub action: Seq<char>,
    pub names: Seq<Seq<char>>,
    pub backend: i32,
}

impl View for ManagedOperation {
    type V = OperationModel;

    open spec fn view(&self) -> OperationModel {
        OperationModel {
            title: self.title@,
            action: self.action@,
            names: texts(self.names@),
            backend: self.backend,
        }
    }
}

/// What is asked for one package.
#[derive(Debug, Clone, Copy, PartialEq, Eq, Structural)]
pub enum PackageRequest {
    Install,
    Remove,
    Update,
    InstallDependency,
}

/// The operation on one package. A dependency always comes from pacman.
pub open spec fn requested(request: PackageRequest, name: Seq<char>, backend: i32) -> OperationModel {
    match request {
        PackageRequest::Install => OperationModel {
            title: "Installing "@ + name,
            action: "install"@,
            names: seq![name],
            backend,
        },
        PackageRequest::Remove => OperationModel {
            title: "Removing "@ + name,
            action: "remove"@,
            names: seq![name],
            backend,
        },
        PackageRequest::Update => OperationModel {
            title: "Updating "@ + name,
            action: "update"@,
            names: seq![name],
            backend,
        },
        PackageRequest::InstallDependency => OperationModel {
            title: "Installing dependency: "@ + name,
            action: "install"@,
            names: seq![name],
            backend: 0,
        },
    }
}

fn after(prefix: &str, text: &str) -> (out: String)
    ensures
        out@ == prefix@ + text@,
{
    let mut out = own(prefix);
    out.append(text);
    out
}

fn one(text: &str) -> (out: Vec<String>)
    ensures
        texts(out@) == seq![text@],
{
    let mut out: Vec<String> = Vec::new();
    push_text(&mut out, own(text));
    proof {
        assert(texts(out@) =~= seq![text@]);
    }
    out
}

/// The operation on one package.
pub fn package_request(request: PackageRequest, name: &str, backend: i32) -> (op: ManagedOperation)
    ensures
        op@ == requested(request, name@, backend),
{
    let (title, action, backend) = match request {
        PackageRequest::Install => ("Installing ", "install", backend),
        PackageRequest::Remove => ("Removing ", "remove", backend),
        PackageRequest::Update => ("Updating ", "update", backend),
        PackageRequest::InstallDependency => ("Installing dependency: ", "install", 0),
    };
    ManagedOperation { title: after(title, name), action: own(action), names: one(name), backend }
}

/// The update of everything that pacman, or that Flatpak, has installed.
pub fn update_everything(flatpak: bool) -> (op: ManagedOperation)
    ensures
        op@ == (OperationModel {
            title: if flatpak {
                "Flatpak Update"@
            } else {
                "Native Update"@
            },
            action: "update-all"@,
            names: seq![],
            backend: if flatpak {
                1
            } else {
                0
            },
        }),
{
    let names: Vec<String> = Vec::new();
    proof {
        assert(texts(names@) =~= seq![]);
    }
    if flatpak {
        ManagedOperation {
            title: own("Flatpak Update"),
            action: own("update-all"),
            names,
            backend: 1,
        }
    } else {
        ManagedOperation {
            title: own("Native Update"),
            action: own("update-all"),
            names,
            backend: 0,
        }
    }
}

/// The action that repeats another one and overwrites files in its way.
pub open spec fn forced(action: Seq<char>) -> Seq<char> {
    if action == "update-all"@ {
        "force-update-all"@
    } else {
        "force-install"@
    }
}

/// The operation that repeats one which has met files in its way, and overwrites them.
pub fn force_overwrite(action: &str, names: &[String], backend: i32) -> (op: ManagedOperation)
    ensures
        op@ == (OperationModel {
            title: "Force Installing "@ + decimal(names@.len()) + " package(s)"@,
            action: forced(action@),
            names: texts(names@),
            backend,
        }),
{
    let count = decimal_text(names.len() as u64);
    let mut title = after("Force Installing ", count.as_str());
    title.append(" package(s)");
    let action = if same_text(action, "update-all") {
        own("force-update-all")
    } else {
        own("force-install")
    };
    ManagedOperation { title, action, names: own_all(names), backend }
}

/// Forcing an operation always overwrites files.
pub proof fn forcing_overwrites(action: Seq<char>, backend: i32)
    ensures
        command_for(forced(action), backend).program == "pkexec"@,
        command_for(forced(action), backend).args.contains("--overwrite"@),
{
    reveal_strlit("force-install");
    reveal_strlit("force-update-all");
    reveal_strlit("install");
    reveal_strlit("bulk-install");
    reveal_strlit("remove");
    reveal_strlit("bulk-remove");
    reveal_strlit("update");
    reveal_strlit("update-all");
    let a = "force-install"@;
    let b = "force-update-all"@;
    assert(a.len() == 13 && b.len() == 16);
    assert(a[0] == 'f' && b[0] == 'f');
    assert("bulk-install"@.len() == 12);
    assert(command_for(forced(action), backend).args[2] == "--overwrite"@);
}

/// The command of a request concerns the package that was asked for, and does what was asked: a
/// removal uninstalls, and everything else installs or updates. A dependency comes from pacman.
pub proof fn requests_do_as_asked(request: PackageRequest, name: Seq<char>, backend: i32)
    ensures
        requested(request, name, backend).names == seq![name],
        is_removing(requested(request, name, backend).action) == (request
            == PackageRequest::Remove),
        is_installing(requested(request, name, backend).action) == (request
            == PackageRequest::Install || request == PackageRequest::InstallDependency),
        (requested(request, name, backend).action == "update"@) == (request
            == PackageRequest::Update),
        requested(request, name, backend).backend == (if request
            == PackageRequest::InstallDependency {
            0
        } else {
            backend
        }),
{
    reveal_strlit("install");
    reveal_strlit("bulk-install");
    reveal_strlit("remove");
    reveal_strlit("bulk-remove");
    reveal_strlit("update");
    assert("remove"@[0] == 'r' && "update"@[0] == 'u');
    assert("install"@.len() == 7 && "bulk-install"@.len() == 12 && "bulk-remove"@.len() == 11);
}

/// Forcing an update of everything updates everything, and forcing anything else installs the named
/// packages.
pub proof fn forcing_repeats(action: Seq<char>, backend: i32, names: Seq<Seq<char>>)
    ensures
        action == "update-all"@ ==> arguments_for(forced(action), backend, names).take(2) == seq![
            "pacman"@,
            "-Syu"@,
        ],
        action != "update-all"@ ==> arguments_for(forced(action), backend, names).take(2) == seq![
            "pacman"@,
            "-S"@,
        ] && arguments_for(forced(action), backend, names).skip(5) == names,
{
    updating_everything_names_nothing(backend, names);
    let args = arguments_for(forced(action), backend, names);
    if action == "update-all"@ {
        assert(args.take(2) =~= seq!["pacman"@, "-Syu"@]);
    } else {
        assert(args.take(2) =~= seq!["pacman"@, "-S"@]);
        assert(args.skip(5) =~= names);
    }
}

// ---------------------------------------------------------------------------
// Commands in the terminal

/// A command that runs in the terminal.
pub struct TerminalModel {
    pub title: Seq<char>,
    pub program: Seq<char>,
    pub args: Seq<Seq<char>>,
}

impl View for TerminalCommand {
    type V = TerminalModel;

    open spec fn view(&self) -> TerminalModel {
        TerminalModel { title: self.title@, program: self.program@, args: texts(self.args@) }
    }
}

/// A script that runs with the rights of the administrator.
pub open spec fn root_script(title: Seq<char>, script: Seq<char>) -> TerminalModel {
    TerminalModel { title, program: "pkexec"@, args: seq!["bash"@, "-c"@, script] }
}

fn as_root(title: &str, script: &str) -> (c: TerminalCommand)
    ensures
        c@ == root_script(title@, script@),
{
    let mut args: Vec<String> = Vec::new();
    push_text(&mut args, own("bash"));
    push_text(&mut args, own("-c"));
    push_text(&mut args, own(script));
    proof {
        assert(texts(args@) =~= seq!["bash"@, "-c"@, script@]);
    }
    TerminalCommand { title: own(title), program: own("pkexec"), args }
}

/// Work on the system as a whole.
#[derive(Debug, Clone, Copy, PartialEq, Eq, Structural)]
pub enum Maintenance {
    UnlockDatabase,
    UpdateSystem,
    CleanCache,
    RemoveOrphans,
    FixKeyring,
    RebuildInitramfs,
    RebuildGrub,
    InstallDowngrade,
}

/// Removes the lock file of pacman where there is one.
pub const UNLOCK_SCRIPT: &'static str =
    "if [ -f /var/lib/pacman/db.lck ]; then rm -v /var/lib/pacman/db.lck && echo 'Lock file removed. Pacman DB unlocked.'; else echo 'No lock file found - DB is already unlocked.'; fi";

/// Updates what pacman has installed, then the Flatpaks.
pub const UPDATE_SCRIPT: &'static str =
    "pacman -Syu && echo '' && echo '━━━ Flatpak Updates ━━━' && flatpak update -y && echo '' && echo '✓ System fully updated'";

/// Empties the cache of pacman, and the directories that interrupted downloads have left.
pub const CLEAN_SCRIPT: &'static str =
    "pacman -Scc --noconfirm; echo ''; echo 'Removing leftover download dirs (pacman bug workaround)...'; rm -rfv /var/cache/pacman/pkg/download-* 2>/dev/null && echo 'Done.' || echo 'No download dirs found.'";

/// Removes all packages that nothing needs.
pub const ORPHANS_SCRIPT: &'static str = "pacman -Qdtq | pacman -Rns -";

/// Sets the keyring of pacman up anew.
pub const KEYRING_SCRIPT: &'static str =
    "rm -rf /etc/pacman.d/gnupg/* && pacman-key --init && pacman-key --populate && echo 'keyserver hkp://keyserver.ubuntu.com:80' | tee -a /etc/pacman.d/gnupg/gpg.conf && pacman -Syy --noconfirm archlinux-keyring";

/// Writes the configuration of the boot loader anew.
pub const GRUB_SCRIPT: &'static str = "update-grub || grub-mkconfig -o /boot/grub/grub.cfg";

/// The command for work on the system.
pub open spec fn maintenance_command(work: Maintenance) -> TerminalModel {
    match work {
        Maintenance::UnlockDatabase => root_script("Unlocking Pacman Database"@, UNLOCK_SCRIPT@),
        Maintenance::UpdateSystem => root_script("Full System Update"@, UPDATE_SCRIPT@),
        Maintenance::CleanCache => root_script("Cleaning Package Cache"@, CLEAN_SCRIPT@),
        Maintenance::RemoveOrphans => root_script("Removing Orphan Packages"@, ORPHANS_SCRIPT@),
        Maintenance::FixKeyring => root_script("Fixing GnuPG Keyring"@, KEYRING_SCRIPT@),
        Maintenance::RebuildInitramfs => TerminalModel {
            title: "Rebuild InitRamFS"@,
            program: "pkexec"@,
            args: seq!["mkinitcpio"@, "-P"@],
        },
        Maintenance::RebuildGrub => root_script("Rebuild GRUB Config"@, GRUB_SCRIPT@),
        Maintenance::InstallDowngrade => TerminalModel {
            title: "Install downgrade"@,
            program: "pkexec"@,
            args: seq!["pacman"@, "-S"@, "--noconfirm"@, "downgrade"@],
        },
    }
}

/// The command for work on the system.
pub fn maintenance(work: Maintenance) -> (c: TerminalCommand)
    ensures
        c@ == maintenance_command(work),
{
    match work {
        Maintenance::UnlockDatabase => as_root("Unlocking Pacman Database", UNLOCK_SCRIPT),
        Maintenance::UpdateSystem => as_root("Full System Update", UPDATE_SCRIPT),
        Maintenance::CleanCache => as_root("Cleaning Package Cache", CLEAN_SCRIPT),
        Maintenance::RemoveOrphans => as_root("Removing Orphan Packages", ORPHANS_SCRIPT),
        Maintenance::FixKeyring => as_root("Fixing GnuPG Keyring", KEYRING_SCRIPT),
        Maintenance::RebuildInitramfs => {
            let mut args = one("mkinitcpio");
            push_text(&mut args, own("-P"));
            proof {
                assert(texts(args@) =~= seq!["mkinitcpio"@, "-P"@]);
            }
            TerminalCommand { title: own("Rebuild InitRamFS"), program: own("pkexec"), args }
        },
        Maintenance::RebuildGrub => as_root("Rebuild GRUB Config", GRUB_SCRIPT),
        Maintenance::InstallDowngrade => {
            let mut args = one("pacman");
            push_text(&mut args, own("-S"));
            push_text(&mut args, own("--noconfirm"));
            push_text(&mut args, own("downgrade"));
            proof {
                assert(texts(args@) =~= seq!["pacman"@, "-S"@, "--noconfirm"@, "downgrade"@]);
            }
            TerminalCommand { title: own("Install downgrade"), program: own("pkexec"), args }
        },
    }
}

/// The update of the lists of mirrors by a script.
pub fn update_mirrorlists(script: &str) -> (c: TerminalCommand)
    ensures
        c@ == root_script("Updating Mirrorlists"@, script@),
{
    as_root("Updating Mirrorlists", script)
}

/// The installation of a package file.
pub fn install_local_package(path: &str) -> (c: TerminalCommand)
    ensures
        c@ == (TerminalModel {
            title: "Installing "@ + path@,
            program: "pkexec"@,
            args: seq!["pacman"@, "-U"@, path@],
        }),
{
    let mut args = one("pacman");
    push_text(&mut args, own("-U"));
    push_text(&mut args, own(path));
    proof {
        assert(texts(args@) =~= seq!["pacman"@, "-U"@, path@]);
    }
    TerminalCommand { title: after("Installing ", path), program: own("pkexec"), args }
}

/// The removal of a Flatpak, with its data or without.
pub fn remove_flatpak(id: &str, delete_data: bool) -> (c: TerminalCommand)
    ensures
        c@ == (TerminalModel {
            title: "Removing "@ + id@,
            program: "flatpak"@,
            args: if delete_data {
                seq!["uninstall"@, "--noninteractive"@, "--assumeyes"@, id@, "--delete-data"@]
            } else {
                seq!["uninstall"@, "--noninteractive"@, "--assumeyes"@, id@]
            },
        }),
{
    let mut args = one("uninstall");
    push_text(&mut args, own("--noninteractive"));
    push_text(&mut args, own("--assumeyes"));
    push_text(&mut args, own(id));
    if delete_data {
        push_text(&mut args, own("--delete-data"));
        proof {
            assert(texts(args@) =~= seq![
                "uninstall"@,
                "--noninteractive"@,
                "--assumeyes"@,
                id@,
                "--delete-data"@,
            ]);
        }
    } else {
        proof {
            assert(texts(args@) =~= seq![
                "uninstall"@,
                "--noninteractive"@,
                "--assumeyes"@,
                id@,
            ]);
        }
    }
    TerminalCommand { title: after("Removing ", id), program: own("flatpak"), args }
}

/// Where the selector for `downgrade` lies while a process runs.
pub open spec fn selector_dir_of(pid: u32) -> Seq<char> {
    "/tmp/xpm-fzf-"@ + decimal(pid as nat)
}

/// Where the selector for `downgrade` lies while a process runs.
pub fn selector_dir(pid: u32) -> (out: String)
    ensures
        out@ == selector_dir_of(pid),
{
    let number = decimal_text(pid as u64);
    after("/tmp/xpm-fzf-", number.as_str())
}

/// The choice of an older version of a package, with the selector in a directory.
pub fn downgrade_package(name: &str, dir: &str) -> (c: TerminalCommand)
    ensures
        c@ == root_script(
            "Downgrade "@ + name@,
            "export PATH="@ + dir@ + ":\"$PATH\"; /usr/bin/downgrade "@ + name@,
        ),
{
    let title = after("Downgrade ", name);
    let mut script = after("export PATH=", dir);
    script.append(":\"$PATH\"; /usr/bin/downgrade ");
    script.append(name);
    as_root(title.as_str(), script.as_str())
}

/// Where the list of packages is kept unless the user chooses otherwise.
pub open spec fn list_path_of(home: Option<Seq<char>>) -> Seq<char> {
    (match home {
        Some(h) => h,
        None => "/tmp"@,
    }) + "/xpm-packages.txt"@
}

/// Where the list of packages is kept unless the user chooses otherwise.
pub fn package_list_path(home: Option<&str>) -> (out: String)
    ensures
        out@ == list_path_of(crate::text::opt_str(home)),
{
    match home {
        Some(h) => after(h, "/xpm-packages.txt"),
        None => after("/tmp", "/xpm-packages.txt"),
    }
}

/// The export of the list of packages to the file that the user has chosen. Where none was chosen,
/// nothing is done.
pub fn export_package_list(chosen: Option<&str>) -> (r: Option<TerminalCommand>)
    ensures
        match r {
            Some(c) => {
                &&& chosen is Some
                &&& trimmed(chosen->0@).len() > 0
                &&& ({
                    let path = trimmed(chosen->0@);
                    c@ == (TerminalModel {
                        title: "Exporting Package List"@,
                        program: "bash"@,
                        args: seq![
                            "-c"@,
                            "echo 'Collecting explicitly installed packages...'; pacman -Qqe > '"@
                                + path + "'; count=$(wc -l < '"@ + path
                                + "'); echo \"Exported $count packages to "@ + path
                                + "\"; echo ''; cat '"@ + path + "'"@,
                        ],
                    })
                })
            },
            None => chosen is None || trimmed(chosen->0@).len() == 0,
        },
{
    match chosen {
        Some(text) => {
            let path = trim_text(text);
            if !crate::text::filled(path.as_str()) {
                return None;
            }
            let mut script = own(
                "echo 'Collecting explicitly installed packages...'; pacman -Qqe > '",
            );
            script.append(path.as_str());
            script.append("'; count=$(wc -l < '");
            script.append(path.as_str());
            script.append("'); echo \"Exported $count packages to ");
            script.append(path.as_str());
            script.append("\"; echo ''; cat '");
            script.append(path.as_str());
            script.append("'");
            let ghost whole = script@;
            let mut args = one("-c");
            push_text(&mut args, script);
            proof {
                assert(texts(args@) =~= seq!["-c"@, whole]);
            }
            Some(
                TerminalCommand {
                    title: own("Exporting Package List"),
                    program: own("bash"),
                    args,
                },
            )
        },
        None => None,
    }
}

/// The installation of the packages of a list.
pub fn import_package_list(path: &str) -> (c: TerminalCommand)
    ensures
        c@ == root_script(
            "Importing Package List"@,
            "if [ ! -f '"@ + path@ + "' ]; then echo 'File not found: "@ + path@
                + "'; exit 1; fi; packages=$(cat '"@ + path@
                + "' | awk '{print $1}' | tr '\\n' ' '); echo \"Installing: $packages\"; pacman -S --needed --noconfirm $packages"@,
        ),
{
    let mut script = after("if [ ! -f '", path);
    script.append("' ]; then echo 'File not found: ");
    script.append(path);
    script.append("'; exit 1; fi; packages=$(cat '");
    script.append(path);
    script.append(
        "' | awk '{print $1}' | tr '\\n' ' '); echo \"Installing: $packages\"; pacman -S --needed --noconfirm $packages",
    );
    as_root("Importing Package List", script.as_str())
}

/// Work on the system runs with the rights of the administrator, and each kind of work has its own
/// command.
pub proof fn maintenance_has_its_commands(work: Maintenance)
    ensures
        maintenance_command(work).program == "pkexec"@,
        maintenance_command(Maintenance::RemoveOrphans).args == seq![
            "bash"@,
            "-c"@,
            "pacman -Qdtq | pacman -Rns -"@,
        ],
        maintenance_command(Maintenance::RebuildInitramfs).args == seq!["mkinitcpio"@, "-P"@],
        maintenance_command(Maintenance::RebuildGrub).args == seq![
            "bash"@,
            "-c"@,
            "update-grub || grub-mkconfig -o /boot/grub/grub.cfg"@,
        ],
        maintenance_command(Maintenance::InstallDowngrade).args == seq![
            "pacman"@,
            "-S"@,
            "--noconfirm"@,
            "downgrade"@,
        ],
        maintenance_command(Maintenance::UpdateSystem).args[2] == UPDATE_SCRIPT@,
        maintenance_command(Maintenance::CleanCache).args[2] == CLEAN_SCRIPT@,
        maintenance_command(Maintenance::UnlockDatabase).args[2] == UNLOCK_SCRIPT@,
        maintenance_command(Maintenance::FixKeyring).args[2] == KEYRING_SCRIPT@,
{
}

/// The list of packages lies in the home directory, or in the one for temporary files where there is
/// none.
pub proof fn lists_lie_at_home(home: Seq<char>)
    ensures
        list_path_of(Some(home)) == home + "/xpm-packages.txt"@,
        list_path_of(None) == "/tmp"@ + "/xpm-packages.txt"@,
{
}

} // verus!
