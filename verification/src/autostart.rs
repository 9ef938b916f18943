//! Starting with the system: the registry entry that needs no rights, and the scheduled task
//! that restarts the program, which only an administrator can create.
use crate::std_items::{from_utf8_lossy, utf8_lossy_text};
use crate::xml::{escape, escape_xml, law_unescape_undoes_escape, unescape};
use vstd::prelude::*;

verus! {

/// The file, in the directory for temporary files, that the task is described in.
pub const TASK_FILE: &'static str = "clipboard_task.xml";

/// The description of the task up to the path of the program.
pub const TASK_HEAD: &'static str = r#"<?xml version="1.0" encoding="UTF-16"?>
<Task version="1.2" xmlns="http://schemas.microsoft.com/windows/2004/02/mit/task">
  <RegistrationInfo>
    <Description>Clipboard Auto Write - restart on failure</Description>
  </RegistrationInfo>
  <Triggers>
    <LogonTrigger>
      <Enabled>true</Enabled>
    </LogonTrigger>
  </Triggers>
  <Principals>
    <Principal id="Author">
      <LogonType>InteractiveToken</LogonType>
      <RunLevel>LeastPrivilege</RunLevel>
    </Principal>
  </Principals>
  <Settings>
    <MultipleInstancesPolicy>IgnoreNew</MultipleInstancesPolicy>
    <DisallowStartIfOnBatteries>false</DisallowStartIfOnBatteries>
    <StopIfGoingOnBatteries>false</StopIfGoingOnBatteries>
    <AllowHardTerminate>true</AllowHardTerminate>
    <StartWhenAvailable>true</StartWhenAvailable>
    <RunOnlyIfNetworkAvailable>false</RunOnlyIfNetworkAvailable>
    <IdleSettings>
      <StopOnIdleEnd>false</StopOnIdleEnd>
      <RestartOnIdle>false</RestartOnIdle>
    </IdleSettings>
    <AllowStartOnDemand>true</AllowStartOnDemand>
    <Enabled>true</Enabled>
    <Hidden>true</Hidden>
    <ExecutionTimeLimit>PT0S</ExecutionTimeLimit>
    <RestartOnFailure>
      <Interval>PT1M</Interval>
      <Count>3</Count>
    </RestartOnFailure>
  </Settings>
  <Actions Context="Author">
    <Exec>
      <Command>"#;

/// The description of the task behind the path of the program.
pub const TASK_TAIL: &'static str = r#"</Command>
    </Exec>
  </Actions>
</Task>"#;

/// The flag by which a program gets no window of its own.
pub const CREATE_NO_WINDOW: u32 = 0x08000000;

/// A program, what it is started with, and the flags that its process is created with.
#[derive(Debug)]
pub struct CommandLine {
    pub program: String,
    pub args: Vec<String>,
    pub creation_flags: u32,
}

/// What a `CommandLine` holds.
#[verifier::ext_equal]
pub struct CommandView {
    pub program: Seq<char>,
    pub args: Seq<Seq<char>>,
    pub creation_flags: u32,
}

impl View for CommandLine {
    type V = CommandView;

    open spec fn view(&self) -> CommandView {
        CommandView {
            program: self.program@,
            args: self.args.deep_view(),
            creation_flags: self.creation_flags,
        }
    }
}

/// One step of setting up the start with the system.
#[derive(Debug)]
pub enum Step {
    /// Run a program; whether it fails does not matter.
    Run { command: CommandLine },
    /// Run a program and report whether it succeeded and what it printed.
    Probe { command: CommandLine },
    /// Write the file of the task.
    WriteTaskFile { content: String },
    /// Remove it.
    RemoveTaskFile,
}

/// What a `Step` asks for.
#[verifier::ext_equal]
pub enum StepView {
    Run { command: CommandView },
    Probe { command: CommandView },
    WriteTaskFile { content: Seq<char> },
    RemoveTaskFile,
}

impl View for Step {
    type V = StepView;

    open spec fn view(&self) -> StepView {
        match self {
            Step::Run { command } => StepView::Run { command: command@ },
            Step::Probe { command } => StepView::Probe { command: command@ },
            Step::WriteTaskFile { content } => StepView::WriteTaskFile { content: content@ },
            Step::RemoveTaskFile => StepView::RemoveTaskFile,
        }
    }
}

pub open spec fn step_views(steps: Seq<Step>) -> Seq<StepView> {
    steps.map_values(|s: Step| s@)
}

/// The command that makes the program start when the user logs on.
pub open spec fn registry_command(exe: Seq<char>) -> CommandView {
    CommandView {
        program: "reg"@,
        args: seq![
            "add"@,
            r"HKCU\Software\Microsoft\Windows\CurrentVersion\Run"@,
            "/v"@,
            "ClipboardAutoWrite"@,
            "/t"@,
            "REG_SZ"@,
            "/d"@,
            exe,
            "/f"@,
        ],
        creation_flags: CREATE_NO_WINDOW,
    }
}

/// The command that only an administrator can run.
pub open spec fn probe_command() -> CommandView {
    CommandView {
        program: "net"@,
        args: seq!["session"@],
        creation_flags: CREATE_NO_WINDOW,
    }
}

/// The command that removes the task.
pub open spec fn delete_command() -> CommandView {
    CommandView {
        program: "schtasks"@,
        args: seq!["/delete"@, "/tn"@, "ClipboardAutoWrite_Wake"@, "/f"@],
        creation_flags: CREATE_NO_WINDOW,
    }
}

/// The command that creates the task from its description in the file `path`.
pub open spec fn create_command(path: Seq<char>) -> CommandView {
    CommandView {
        program: "schtasks"@,
        args: seq!["/create"@, "/tn"@, "ClipboardAutoWrite_Wake"@, "/xml"@, path, "/f"@],
        creation_flags: CREATE_NO_WINDOW,
    }
}

/// The description of the task that starts the program `exe`.
pub open spec fn task_description(exe: Seq<char>) -> Seq<char> {
    TASK_HEAD@ + escape(exe) + TASK_TAIL@
}

/// The steps that replace the task.
pub open spec fn task_steps(exe: Seq<char>, path: Seq<char>) -> Seq<StepView> {
    seq![
        StepView::Run { command: delete_command() },
        StepView::WriteTaskFile { content: task_description(exe) },
        StepView::Run { command: create_command(path) },
        StepView::RemoveTaskFile,
    ]
}

/// Whether a text holds two backslashes side by side, as the name of a computer begins
/// with them.
pub open spec fn has_double_backslash(text: Seq<char>) -> bool {
    exists|i: int| 0 <= i < text.len() - 1 && #[trigger] text[i] == '\\' && text[i + 1] == '\\'
}

/// Whether `text` holds two backslashes side by side.
pub fn shows_computer(text: &str) -> (r: bool)
    ensures
        r == has_double_backslash(text@),
{
    let mut previous: bool = false;
    let mut found: bool = false;
    for c in iter: text.chars()
        invariant
            iter.seq() == text@,
            previous == (iter.index() > 0 && text@[iter.index() - 1] == '\\'),
            found == has_double_backslash(text@.take(iter.index())),
    {
        let ghost i = iter.index();
        let ghost now = text@.take(i + 1);
        let ghost was = text@.take(i);
        let here: bool = c == '\\';
        proof {
            if found {
                let k = choose|k: int|
                    0 <= k < was.len() - 1 && #[trigger] was[k] == '\\' && was[k + 1] == '\\';
                assert(now[k] == '\\' && now[k + 1] == '\\');
            }
            if previous && here {
                assert(now[i - 1] == '\\' && now[i - 1 + 1] == '\\');
            }
            if has_double_backslash(now) {
                let k = choose|k: int|
                    0 <= k < now.len() - 1 && #[trigger] now[k] == '\\' && now[k + 1] == '\\';
                if k + 1 < i {
                    assert(was[k] == '\\' && was[k + 1] == '\\');
                }
            }
        }
        if previous && here {
            found = true;
        }
        previous = here;
    }
    assert(text@.take(text@.len() as int) =~= text@);
    found
}

/// Whether the program runs as administrator, told by whether the probe succeeded and what
/// it printed. The probe lists the open sessions, each under the name of its computer, and
/// says so where there is none; without the rights it fails and lists nothing. A probe that
/// could not be run tells nothing.
pub fn is_elevated(output: Option<(bool, &[u8])>) -> (r: bool)
    ensures
        r == match output {
            Some((succeeded, bytes)) => has_double_backslash(utf8_lossy_text(bytes@)) || (succeeded
                && bytes@.len() > 0),
            None => false,
        },
        output matches Some((succeeded, bytes)) ==> vstd::utf8::valid_utf8(bytes@) ==> r == (
        has_double_backslash(vstd::utf8::decode_utf8(bytes@)) || (succeeded && bytes@.len() > 0)),
{
    match output {
        Some((succeeded, bytes)) => {
            let listed: bool = shows_computer(from_utf8_lossy(bytes).as_str());
            listed || (succeeded && bytes.len() > 0)
        },
        None => false,
    }
}

/// The steps that come first: nothing where the path of the program is unknown, else the
/// registry entry and then the probe.
pub open spec fn first_steps(exe: Option<Seq<char>>) -> Seq<StepView> {
    match exe {
        Some(e) => seq![
            StepView::Run { command: registry_command(e) },
            StepView::Probe { command: probe_command() },
        ],
        None => Seq::empty(),
    }
}

/// The steps that follow the probe: the task, for an administrator only.
pub open spec fn later_steps(elevated: bool, exe: Seq<char>, path: Seq<char>) -> Seq<StepView> {
    if elevated {
        task_steps(exe, path)
    } else {
        Seq::empty()
    }
}

/// The command that makes the program `exe_str` start when the user logs on.
pub fn setup_registry(exe_str: &str) -> (r: CommandLine)
    ensures
        r@ == registry_command(exe_str@),
{
    let mut args: Vec<String> = Vec::new();
    args.push("add".to_owned());
    args.push(r"HKCU\Software\Microsoft\Windows\CurrentVersion\Run".to_owned());
    args.push("/v".to_owned());
    args.push("ClipboardAutoWrite".to_owned());
    args.push("/t".to_owned());
    args.push("REG_SZ".to_owned());
    args.push("/d".to_owned());
    args.push(exe_str.to_owned());
    args.push("/f".to_owned());
    assert(args.deep_view() =~= registry_command(exe_str@).args);
    CommandLine { program: "reg".to_owned(), args, creation_flags: CREATE_NO_WINDOW }
}

/// The command whose outcome tells whether the program runs as administrator.
pub fn elevation_probe() -> (r: CommandLine)
    ensures
        r@ == probe_command(),
{
    let mut args: Vec<String> = Vec::new();
    args.push("session".to_owned());
    assert(args.deep_view() =~= probe_command().args);
    CommandLine { program: "net".to_owned(), args, creation_flags: CREATE_NO_WINDOW }
}

/// The description of the task that starts the program `exe_str`.
pub fn task_xml(exe_str: &str) -> (r: String)
    ensures
        r@ == task_description(exe_str@),
{
    let mut out = TASK_HEAD.to_owned();
    out.append(escape_xml(exe_str).as_str());
    out.append(TASK_TAIL);
    out
}

/// The steps that replace the task that starts the program `exe_str`, where `xml_path` is
/// the path of the file of the task.
pub fn setup_task(exe_str: &str, xml_path: &str) -> (r: Vec<Step>)
    ensures
        step_views(r@) == task_steps(exe_str@, xml_path@),
{
    let mut delete: Vec<String> = Vec::new();
    delete.push("/delete".to_owned());
    delete.push("/tn".to_owned());
    delete.push("ClipboardAutoWrite_Wake".to_owned());
    delete.push("/f".to_owned());
    assert(delete.deep_view() =~= delete_command().args);
    let mut create: Vec<String> = Vec::new();
    create.push("/create".to_owned());
    create.push("/tn".to_owned());
    create.push("ClipboardAutoWrite_Wake".to_owned());
    create.push("/xml".to_owned());
    create.push(xml_path.to_owned());
    create.push("/f".to_owned());
    assert(create.deep_view() =~= create_command(xml_path@).args);
    let mut steps: Vec<Step> = Vec::new();
    steps.push(
        Step::Run {
            command: CommandLine {
                program: "schtasks".to_owned(),
                args: delete,
                creation_flags: CREATE_NO_WINDOW,
            },
        },
    );
    steps.push(Step::WriteTaskFile { content: task_xml(exe_str) });
    steps.push(
        Step::Run {
            command: CommandLine {
                program: "schtasks".to_owned(),
                args: create,
                creation_flags: CREATE_NO_WINDOW,
            },
        },
    );
    steps.push(Step::RemoveTaskFile);
    assert(step_views(steps@) =~= task_steps(exe_str@, xml_path@));
    steps
}

/// The steps that come first; `exe` is the path of the program, where it could be found
/// out.
pub fn setup_autostart(exe: Option<&str>) -> (r: Vec<Step>)
    ensures
        step_views(r@) == first_steps(
            match exe {
                Some(e) => Some(e@),
                None => None,
            },
        ),
{
    let mut steps: Vec<Step> = Vec::new();
    if let Some(exe_str) = exe {
        steps.push(Step::Run { command: setup_registry(exe_str) });
        steps.push(Step::Probe { command: elevation_probe() });
    }
    assert(step_views(steps@) =~= first_steps(
        match exe {
            Some(e) => Some(e@),
            None => None,
        },
    ));
    steps
}

/// The steps that follow the probe.
pub fn after_probe(elevated: bool, exe_str: &str, xml_path: &str) -> (r: Vec<Step>)
    ensures
        step_views(r@) == later_steps(elevated, exe_str@, xml_path@),
{
    if elevated {
        return setup_task(exe_str, xml_path);
    }
    let steps: Vec<Step> = Vec::new();
    assert(step_views(steps@) =~= Seq::<StepView>::empty());
    steps
}

/// The path of the program is all that varies in the description of the task, and it can be
/// read back from it.
pub proof fn law_task_names_the_program(exe: Seq<char>)
    ensures
        unescape(
            task_description(exe).subrange(
                TASK_HEAD@.len() as int,
                task_description(exe).len() - TASK_TAIL@.len(),
            ),
        ) == exe,
{
    law_unescape_undoes_escape(exe);
    assert(task_description(exe).subrange(
        TASK_HEAD@.len() as int,
        task_description(exe).len() - TASK_TAIL@.len(),
    ) =~= escape(exe));
}

/// What is written to disk is removed again.
pub proof fn law_task_file_is_removed(elevated: bool, exe: Seq<char>, path: Seq<char>, i: int)
    requires
        0 <= i < later_steps(elevated, exe, path).len(),
        later_steps(elevated, exe, path)[i] is WriteTaskFile,
    ensures
        later_steps(elevated, exe, path).last() == StepView::RemoveTaskFile,
{
}

/// The start with the system needs no rights: the registry entry is written whenever the
/// path of the program is known, before anything asks for the rights.
pub proof fn law_registry_entry_needs_no_rights(exe: Seq<char>)
    ensures
        first_steps(Some(exe))[0] == (StepView::Run { command: registry_command(exe) }),
        first_steps(Some(exe))[1] is Probe,
{
}

/// Whether a step that runs a program gives it no window.
pub open spec fn opens_no_window(step: StepView) -> bool {
    match step {
        StepView::Run { command } => command.creation_flags == CREATE_NO_WINDOW,
        StepView::Probe { command } => command.creation_flags == CREATE_NO_WINDOW,
        _ => true,
    }
}

/// No step of setting up the start with the system opens a window.
pub proof fn law_no_step_opens_a_window(
    exe: Option<Seq<char>>,
    elevated: bool,
    program: Seq<char>,
    path: Seq<char>,
)
    ensures
        forall|i: int|
            0 <= i < first_steps(exe).len() ==> opens_no_window(#[trigger] first_steps(exe)[i]),
        forall|i: int|
            0 <= i < later_steps(elevated, program, path).len() ==> opens_no_window(
                #[trigger] later_steps(elevated, program, path)[i],
            ),
{
}

/// What a command and a step show is what they hold.
pub proof fn law_views_show_every_part(command: CommandLine, steps: Seq<Step>, i: int, k: int)
    ensures
        command@.program == command.program@,
        command@.args.len() == command.args@.len(),
        0 <= k < command.args@.len() ==> command@.args[k] == command.args@[k]@,
        command@.creation_flags == command.creation_flags,
        step_views(steps).len() == steps.len(),
        0 <= i < steps.len() ==> match steps[i] {
            Step::Run { command: c } => step_views(steps)[i] == (StepView::Run { command: c@ }),
            Step::Probe { command: c } => step_views(steps)[i] == (StepView::Probe { command: c@ }),
            Step::WriteTaskFile { content } => step_views(steps)[i] == (StepView::WriteTaskFile {
                content: content@,
            }),
            Step::RemoveTaskFile => step_views(steps)[i] == StepView::RemoveTaskFile,
        },
{
}

/// The registry entry holds the path of the program as it is, and nothing else in the
/// command depends on it.
pub proof fn law_registry_entry_holds_the_path(exe: Seq<char>, other: Seq<char>)
    ensures
        ({
            let c = registry_command(exe);
            &&& c.program == "reg"@
            &&& c.args.len() == 9
            &&& c.args[0] == "add"@
            &&& c.args[1] == r"HKCU\Software\Microsoft\Windows\CurrentVersion\Run"@
            &&& c.args[2] == "/v"@
            &&& c.args[3] == "ClipboardAutoWrite"@
            &&& c.args[4] == "/t"@
            &&& c.args[5] == "REG_SZ"@
            &&& c.args[6] == "/d"@
            &&& c.args[7] == exe
            &&& c.args[8] == "/f"@
            &&& c.creation_flags == 0x08000000
            &&& registry_command(other).args == c.args.update(7, other)
        }),
{
    assert(registry_command(other).args =~= registry_command(exe).args.update(7, other));
}

/// The task is created from the file at `path`, under the name under which the old one was
/// removed, and nothing else in the command depends on the path.
pub proof fn law_task_is_created_from_its_file(path: Seq<char>, other: Seq<char>)
    ensures
        ({
            let c = create_command(path);
            let d = delete_command();
            &&& c.program == "schtasks"@
            &&& c.args.len() == 6
            &&& c.args[0] == "/create"@
            &&& c.args[1] == "/tn"@
            &&& c.args[2] == "ClipboardAutoWrite_Wake"@
            &&& c.args[3] == "/xml"@
            &&& c.args[4] == path
            &&& c.args[5] == "/f"@
            &&& create_command(other).args == c.args.update(4, other)
            &&& d.program == "schtasks"@
            &&& d.args.len() == 4
            &&& d.args[0] == "/delete"@
            &&& d.args[1] == "/tn"@
            &&& d.args[2] == c.args[2]
            &&& d.args[3] == "/f"@
            &&& c.creation_flags == 0x08000000
            &&& d.creation_flags == 0x08000000
        }),
{
    assert(create_command(other).args =~= create_command(path).args.update(4, other));
}

/// The rights are probed by the command `net session`.
pub proof fn law_probe_lists_the_sessions()
    ensures
        probe_command().program == "net"@,
        probe_command().args.len() == 1,
        probe_command().args[0] == "session"@,
        probe_command().creation_flags == 0x08000000,
{
}

/// The task starts at logon, runs hidden with the rights of the user, on batteries and
/// without limit, is restarted up to three times after a minute each, and runs the program
/// whose escaped path stands between two texts that do not depend on it.
pub proof fn law_task_settings(exe: Seq<char>)
    ensures
        task_description(exe) == r#"<?xml version="1.0" encoding="UTF-16"?>
<Task version="1.2" xmlns="http://schemas.microsoft.com/windows/2004/02/mit/task">
  <RegistrationInfo>
    <Description>Clipboard Auto Write - restart on failure</Description>
  </RegistrationInfo>
  <Triggers>
    <LogonTrigger>
      <Enabled>true</Enabled>
    </LogonTrigger>
  </Triggers>
  <Principals>
    <Principal id="Author">
      <LogonType>InteractiveToken</LogonType>
      <RunLevel>LeastPrivilege</RunLevel>
    </Principal>
  </Principals>
  <Settings>
    <MultipleInstancesPolicy>IgnoreNew</MultipleInstancesPolicy>
    <DisallowStartIfOnBatteries>false</DisallowStartIfOnBatteries>
    <StopIfGoingOnBatteries>false</StopIfGoingOnBatteries>
    <AllowHardTerminate>true</AllowHardTerminate>
    <StartWhenAvailable>true</StartWhenAvailable>
    <RunOnlyIfNetworkAvailable>false</RunOnlyIfNetworkAvailable>
    <IdleSettings>
      <StopOnIdleEnd>false</StopOnIdleEnd>
      <RestartOnIdle>false</RestartOnIdle>
    </IdleSettings>
    <AllowStartOnDemand>true</AllowStartOnDemand>
    <Enabled>true</Enabled>
    <Hidden>true</Hidden>
    <ExecutionTimeLimit>PT0S</ExecutionTimeLimit>
    <RestartOnFailure>
      <Interval>PT1M</Interval>
      <Count>3</Count>
    </RestartOnFailure>
  </Settings>
  <Actions Context="Author">
    <Exec>
      <Command>"#@ + escape(exe)
            + r#"</Command>
    </Exec>
  </Actions>
</Task>"#@,
{
}

/// The descriptions of the task for two programs differ in the path alone.
pub proof fn law_task_varies_with_the_path_alone(exe: Seq<char>, other: Seq<char>)
    ensures
        ({
            let (a, b) = (task_description(exe), task_description(other));
            let n = TASK_HEAD@.len() as int;
            let m = TASK_TAIL@.len() as int;
            &&& a.len() == n + escape(exe).len() + m
            &&& a.take(n) == b.take(n)
            &&& a.subrange(n, a.len() - m) == escape(exe)
            &&& a.skip(a.len() - m) == b.skip(b.len() - m)
        }),
{
    let (a, b) = (task_description(exe), task_description(other));
    let n = TASK_HEAD@.len() as int;
    let m = TASK_TAIL@.len() as int;
    assert(a.take(n) =~= TASK_HEAD@);
    assert(b.take(n) =~= TASK_HEAD@);
    assert(a.subrange(n, a.len() - m) =~= escape(exe));
    assert(a.skip(a.len() - m) =~= TASK_TAIL@);
    assert(b.skip(b.len() - m) =~= TASK_TAIL@);
}

/// For an administrator the old task is removed, the file with the new one is written, the
/// new one is created from it, and the file is removed, in this order; for anyone else
/// nothing is done.
pub proof fn law_task_is_replaced_in_order(exe: Seq<char>, path: Seq<char>)
    ensures
        later_steps(false, exe, path).len() == 0,
        ({
            let s = later_steps(true, exe, path);
            &&& s.len() == 4
            &&& s[0] == (StepView::Run { command: delete_command() })
            &&& s[1] == (StepView::WriteTaskFile { content: task_description(exe) })
            &&& s[2] == (StepView::Run { command: create_command(path) })
            &&& s[3] == StepView::RemoveTaskFile
        }),
{
}

/// With the path of the program known, its registry entry is written and the rights are
/// probed; without it nothing is done.
pub proof fn law_first_steps(exe: Seq<char>)
    ensures
        first_steps(None).len() == 0,
        first_steps(Some(exe)).len() == 2,
        first_steps(Some(exe))[0] == (StepView::Run { command: registry_command(exe) }),
        first_steps(Some(exe))[1] == (StepView::Probe { command: probe_command() }),
{
}

/// A text shows two backslashes side by side exactly when it can be cut in front of them and
/// behind them.
pub proof fn law_double_backslash_is_a_piece_of_the_text(text: Seq<char>)
    ensures
        has_double_backslash(text) <==> exists|front: Seq<char>, back: Seq<char>|
            text == #[trigger] (front.push('\\').push('\\') + back),
{
    if has_double_backslash(text) {
        let i = choose|i: int|
            0 <= i < text.len() - 1 && #[trigger] text[i] == '\\' && text[i + 1] == '\\';
        assert(text =~= text.take(i).push('\\').push('\\') + text.skip(i + 2));
    }
    if exists|front: Seq<char>, back: Seq<char>|
        text == #[trigger] (front.push('\\').push('\\') + back) {
        let (front, back) = choose|front: Seq<char>, back: Seq<char>|
            text == #[trigger] (front.push('\\').push('\\') + back);
        let i = front.len() as int;
        assert(text[i] == '\\' && text[i + 1] == '\\');
    }
}


} // verus!
