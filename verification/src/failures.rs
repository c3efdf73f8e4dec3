//! What the user is told when something outside fails.

use vstd::prelude::*;

use crate::auth::Purpose;

verus! {

/// A step of connecting that can fail.
#[derive(Debug, Clone, Copy, PartialEq, Eq, Structural)]
pub enum Connecting {
    /// Finding the address of the host.
    Resolve,
    /// Reaching the host.
    Reach,
    /// Agreeing on a session.
    Handshake,
}

/// What the user is told of a step that failed. A file session only passes the
/// cause on.
pub open spec fn connecting_failure(
    purpose: Purpose,
    step: Connecting,
    address: Seq<char>,
    cause: Seq<char>,
) -> Seq<char> {
    match (purpose, step) {
        (Purpose::Sftp, _) => cause,
        (Purpose::Shell, Connecting::Resolve) => "호스트를 찾을 수 없음: "@ + address + " ("@ + cause + ")"@,
        (Purpose::Shell, Connecting::Reach) => "서버에 연결할 수 없음: "@ + address + " ("@ + cause + ")"@,
        (Purpose::Shell, Connecting::Handshake) => "SSH 핸드셰이크 실패: "@ + cause,
    }
}

/// Words a failure to connect.
pub fn word_connecting_failure(purpose: Purpose, step: Connecting, address: &str, cause: &str) -> (r:
    String)
    ensures
        r@ == connecting_failure(purpose, step, address@, cause@),
{
    if purpose == Purpose::Sftp {
        return cause.to_owned();
    }
    let mut r = match step {
        Connecting::Handshake => {
            let mut r = "SSH 핸드셰이크 실패: ".to_owned();
            r.append(cause);
            return r;
        },
        Connecting::Resolve => "호스트를 찾을 수 없음: ".to_owned(),
        Connecting::Reach => "서버에 연결할 수 없음: ".to_owned(),
    };
    r.append(address);
    r.append(" (");
    r.append(cause);
    r.append(")");
    r
}

/// Something that is done with a file or a session and can fail.
#[derive(Debug, Clone, Copy, PartialEq, Eq, Structural)]
pub enum Task {
    /// Opening a file to download it.
    OpenDownload,
    /// Creating a file to upload to it.
    CreateUpload,
    /// Opening a remote file to edit it.
    OpenEdit,
    /// Creating a remote file to write an edit back.
    CreateEdit,
    /// Setting the file tree of a tab up.
    FileTree,
}

impl Task {
    /// What the user is told first.
    pub open spec fn prefix(&self) -> Seq<char> {
        match *self {
            Task::OpenDownload => "파일 열기 실패: "@,
            Task::CreateUpload => "파일 생성 실패: "@,
            Task::OpenEdit => "원격 파일 열기 실패: "@,
            Task::CreateEdit => "원격 파일 생성 실패: "@,
            Task::FileTree => "파일 트리 연결 실패: "@,
        }
    }
}

/// Words the failure of a task.
pub fn word_failure(task: Task, cause: &str) -> (r: String)
    ensures
        r@ == task.prefix() + cause@,
{
    let mut r = match task {
        Task::OpenDownload => "파일 열기 실패: ".to_owned(),
        Task::CreateUpload => "파일 생성 실패: ".to_owned(),
        Task::OpenEdit => "원격 파일 열기 실패: ".to_owned(),
        Task::CreateEdit => "원격 파일 생성 실패: ".to_owned(),
        Task::FileTree => "파일 트리 연결 실패: ".to_owned(),
    };
    r.append(cause);
    r
}

/// A failure to connect is told with its cause. A file session tells nothing
/// else; a shell names the address as well, unless the host was reached.
pub proof fn law_cause_is_told(step: Connecting, address: Seq<char>, cause: Seq<char>)
    ensures
        connecting_failure(Purpose::Sftp, step, address, cause) == cause,
        ({
            let told = connecting_failure(Purpose::Shell, step, address, cause);
            let n = told.len() as int;
            let c = cause.len() as int;
            let a = address.len() as int;
            match step {
                Connecting::Handshake => n >= c && told.skip(n - c) == cause,
                _ => {
                    &&& n >= a + c + 3
                    &&& told.subrange(n - 1 - c, n - 1) == cause
                    &&& told.subrange(n - 3 - c - a, n - 3 - c) == address
                },
            }
        }),
{
    reveal_strlit(" (");
    reveal_strlit(")");
    let told = connecting_failure(Purpose::Shell, step, address, cause);
    let n = told.len() as int;
    let c = cause.len() as int;
    let a = address.len() as int;
    match step {
        Connecting::Handshake => {
            assert(told.skip(n - c) == cause);
        },
        _ => {
            assert(told.subrange(n - 1 - c, n - 1) == cause);
            assert(told.subrange(n - 3 - c - a, n - 3 - c) == address);
        },
    }
}

/// The failure of a task is told by words of its own, so that no two are
/// confused.
pub proof fn law_tasks_are_told_apart(task: Task, other: Task)
    requires
        task.prefix() == other.prefix(),
    ensures
        task == other,
{
    reveal_strlit("파일 열기 실패: ");
    reveal_strlit("파일 생성 실패: ");
    reveal_strlit("원격 파일 열기 실패: ");
    reveal_strlit("원격 파일 생성 실패: ");
    reveal_strlit("파일 트리 연결 실패: ");
    let a = task.prefix();
    assert(a[0] == '파' || a[0] == '원');
    assert(a[3] == '열' || a[3] == '생' || a[3] == '파' || a[3] == '트');
    assert(a[0] == '원' ==> a[6] == '열' || a[6] == '생');
}

} // verus!
