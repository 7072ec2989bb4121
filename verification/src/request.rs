//! What a caller asks of one execution.

use vstd::prelude::*;

use crate::artifact::WasmArtifact;
use crate::clock::Span;
use crate::failure::Failure;
use crate::text;
use crate::text::{
    concat2, concat3, contains_char, copy_pairs, copy_strings, decimal_string, same,
};

verus! {

/// The limits of one execution.
#[derive(Debug, Clone, Copy)]
pub struct ExecutionLimits {
    pub timeout: Option<Span>,
    pub memory_bytes: Option<usize>,
}

impl Default for ExecutionLimits {
    fn default() -> (limits: Self)
        ensures
            limits.timeout is None,
            limits.memory_bytes is None,
    {
        ExecutionLimits { timeout: None, memory_bytes: None }
    }
}

/// The input of one execution.
#[derive(Debug)]
pub struct ExecutionRequest {
    pub artifact: WasmArtifact,
    /// The function that is called. Raw artifacts have `_start`.
    pub entrypoint: String,
    /// The arguments behind the name of the program.
    pub args: Vec<String>,
    /// The variables that the guest sees. It sees no others.
    pub env: Vec<(String, String)>,
    pub limits: ExecutionLimits,
}

impl Clone for ExecutionRequest {
    fn clone(&self) -> (copy: Self)
        ensures
            copy.artifact.identity() == self.artifact.identity(),
            copy.artifact.path() == self.artifact.path(),
            copy.artifact.bytes() == self.artifact.bytes(),
            copy.artifact.digest_known() == self.artifact.digest_known(),
            copy.artifact.settled_digest() == self.artifact.settled_digest(),
            copy.entrypoint@ == self.entrypoint@,
            text::texts(copy.args@) == text::texts(self.args@),
            text::text_pairs(copy.env@) == text::text_pairs(self.env@),
            copy.limits == self.limits,
    {
        ExecutionRequest {
            artifact: self.artifact.clone(),
            entrypoint: self.entrypoint.clone(),
            args: copy_strings(&self.args),
            env: copy_pairs(&self.env),
            limits: self.limits,
        }
    }
}

/// Why an environment entry is refused.
pub open spec fn env_problem(key: Seq<char>, value: Seq<char>) -> Option<Seq<char>> {
    if key.len() == 0 {
        Some("environment variable name must not be empty"@)
    } else if key.contains('=') {
        Some("environment variable name must not contain '=': "@ + key)
    } else if key.contains('\0') || value.contains('\0') {
        Some("environment variable entries must not contain NUL bytes"@)
    } else {
        None
    }
}

/// Why the first argument that is refused is refused.
pub open spec fn args_problem(args: Seq<Seq<char>>) -> Option<Seq<char>>
    decreases args.len(),
{
    if args.len() == 0 {
        None
    } else {
        match args_problem(args.drop_last()) {
            Some(problem) => Some(problem),
            None => if args.last().contains('\0') {
                Some(
                    "argument "@ + text::decimal((args.len() - 1) as nat)
                        + " contains a NUL byte"@,
                )
            } else {
                None
            },
        }
    }
}

/// Why the first environment entry that is refused is refused.
pub open spec fn envs_problem(env: Seq<(Seq<char>, Seq<char>)>) -> Option<Seq<char>>
    decreases env.len(),
{
    if env.len() == 0 {
        None
    } else {
        match envs_problem(env.drop_last()) {
            Some(problem) => Some(problem),
            None => env_problem(env.last().0, env.last().1),
        }
    }
}

/// Why a request is refused: the entrypoint is looked at first, then the
/// arguments, then the environment.
pub open spec fn request_problem(request: ExecutionRequest) -> Option<Seq<char>> {
    if request.entrypoint@.len() == 0 || request.entrypoint@.contains('\0') {
        Some("entrypoint must be a non-empty string without NUL bytes"@)
    } else {
        match args_problem(text::texts(request.args@)) {
            Some(problem) => Some(problem),
            None => envs_problem(text::text_pairs(request.env@)),
        }
    }
}

/// Whether a check ended as a problem, or its absence, demands.
pub open spec fn checked(result: Result<(), Failure>, problem: Option<Seq<char>>) -> bool {
    match problem {
        Some(message) => result matches Err(failure) && failure.says(message),
        None => result is Ok,
    }
}

/// A problem with the first arguments is a problem with all of them.
proof fn lemma_args_problem_kept(args: Seq<Seq<char>>, n: int)
    requires
        0 <= n <= args.len(),
        args_problem(args.take(n)) is Some,
    ensures
        args_problem(args) == args_problem(args.take(n)),
    decreases args.len(),
{
    if n < args.len() {
        assert(args.drop_last().take(n) =~= args.take(n));
        lemma_args_problem_kept(args.drop_last(), n);
    } else {
        assert(args.take(n) =~= args);
    }
}

proof fn lemma_envs_problem_kept(env: Seq<(Seq<char>, Seq<char>)>, n: int)
    requires
        0 <= n <= env.len(),
        envs_problem(env.take(n)) is Some,
    ensures
        envs_problem(env) == envs_problem(env.take(n)),
    decreases env.len(),
{
    if n < env.len() {
        assert(env.drop_last().take(n) =~= env.take(n));
        lemma_envs_problem_kept(env.drop_last(), n);
    } else {
        assert(env.take(n) =~= env);
    }
}

/// A request has no problem exactly where its entrypoint is a name, none of its
/// strings holds a NUL, and no variable is unnamed or has a `=` in its name.
pub proof fn law_valid_requests(request: ExecutionRequest)
    ensures
        request_problem(request) is None <==> {
            &&& request.entrypoint@.len() > 0
            &&& !request.entrypoint@.contains('\0')
            &&& forall|i: int|
                0 <= i < request.args@.len() ==> !(#[trigger] request.args@[i])@.contains('\0')
            &&& forall|i: int|
                0 <= i < request.env@.len() ==> {
                    let (key, value) = #[trigger] request.env@[i];
                    key@.len() > 0 && !key@.contains('=') && !key@.contains('\0')
                        && !value@.contains('\0')
                }
        },
{
    let args = text::texts(request.args@);
    let env = text::text_pairs(request.env@);
    lemma_args_fine(args);
    lemma_envs_fine(env);
    assert(forall|i: int|
        0 <= i < request.args@.len() ==> args[i] == (#[trigger] request.args@[i])@);
    assert(forall|i: int|
        0 <= i < request.env@.len() ==> env[i] == ((#[trigger] request.env@[i]).0@, request.env@[i].1@));
    if request_problem(request) is None {
        assert forall|i: int| 0 <= i < request.args@.len() implies !(
        #[trigger] request.args@[i])@.contains('\0') by {
            assert(!args[i].contains('\0'));
        }
        assert forall|i: int| 0 <= i < request.env@.len() implies {
            let (key, value) = #[trigger] request.env@[i];
            key@.len() > 0 && !key@.contains('=') && !key@.contains('\0') && !value@.contains('\0')
        } by {
            assert(env_problem(env[i].0, env[i].1) is None);
        }
    } else {
        if forall|i: int|
            0 <= i < request.args@.len() ==> !(#[trigger] request.args@[i])@.contains('\0') {
            assert forall|i: int| 0 <= i < args.len() implies !(
            #[trigger] args[i]).contains('\0') by {
                assert(!request.args@[i]@.contains('\0'));
            }
        }
        if forall|i: int|
            0 <= i < request.env@.len() ==> {
                let (key, value) = #[trigger] request.env@[i];
                key@.len() > 0 && !key@.contains('=') && !key@.contains('\0') && !value@.contains(
                    '\0',
                )
            } {
            assert forall|i: int| 0 <= i < env.len() implies env_problem(
                (#[trigger] env[i]).0,
                env[i].1,
            ) is None by {
                let (key, value) = request.env@[i];
            }
        }
    }
}

proof fn lemma_args_fine(args: Seq<Seq<char>>)
    ensures
        args_problem(args) is None <==> forall|i: int|
            0 <= i < args.len() ==> !(#[trigger] args[i]).contains('\0'),
    decreases args.len(),
{
    if args.len() > 0 {
        let rest = args.drop_last();
        lemma_args_fine(rest);
        assert(forall|i: int| 0 <= i < rest.len() ==> #[trigger] rest[i] == args[i]);
        if args_problem(args) is None {
            assert forall|i: int| 0 <= i < args.len() implies !(
            #[trigger] args[i]).contains('\0') by {
                if i < rest.len() {
                    assert(!rest[i].contains('\0'));
                }
            }
        } else if forall|i: int| 0 <= i < args.len() ==> !(#[trigger] args[i]).contains('\0') {
            assert(!args[args.len() - 1].contains('\0'));
            assert(forall|i: int| 0 <= i < rest.len() ==> !(#[trigger] rest[i]).contains('\0'));
        }
    }
}

proof fn lemma_envs_fine(env: Seq<(Seq<char>, Seq<char>)>)
    ensures
        envs_problem(env) is None <==> forall|i: int|
            0 <= i < env.len() ==> env_problem((#[trigger] env[i]).0, env[i].1) is None,
    decreases env.len(),
{
    if env.len() > 0 {
        let rest = env.drop_last();
        lemma_envs_fine(rest);
        assert(forall|i: int| 0 <= i < rest.len() ==> #[trigger] rest[i] == env[i]);
        if envs_problem(env) is None {
            assert forall|i: int| 0 <= i < env.len() implies env_problem(
                (#[trigger] env[i]).0,
                env[i].1,
            ) is None by {
                if i < rest.len() {
                    assert(env_problem(rest[i].0, rest[i].1) is None);
                }
            }
        } else if forall|i: int|
            0 <= i < env.len() ==> env_problem((#[trigger] env[i]).0, env[i].1) is None {
            assert(env_problem(env[env.len() - 1].0, env[env.len() - 1].1) is None);
            assert(forall|i: int|
                0 <= i < rest.len() ==> env_problem((#[trigger] rest[i]).0, rest[i].1) is None);
        }
    }
}

/// Checks one environment entry.
pub fn validate_env_entry(key: &str, value: &str) -> (result: Result<(), Failure>)
    ensures
        checked(result, env_problem(key@, value@)),
{
    proof {
        reveal_strlit("");
        assert(key@ == ""@ <==> key@.len() == 0) by {
            if key@.len() == 0 {
                assert(key@ =~= ""@);
            }
        }
    }
    if same(key, "") {
        return Err(Failure::new("environment variable name must not be empty"));
    }
    if contains_char(key, '=') {
        return Err(
            Failure::of(concat2("environment variable name must not contain '=': ", key)),
        );
    }
    if contains_char(key, '\0') || contains_char(value, '\0') {
        return Err(Failure::new("environment variable entries must not contain NUL bytes"));
    }
    Ok(())
}

impl ExecutionRequest {
    /// A request for an artifact with nothing but the default entrypoint.
    pub fn new(artifact: WasmArtifact) -> (request: ExecutionRequest)
        ensures
            request.artifact == artifact,
            request.entrypoint@ == "_start"@,
            request.args@.len() == 0,
            request.env@.len() == 0,
            request.limits.timeout is None,
            request.limits.memory_bytes is None,
    {
        ExecutionRequest {
            artifact,
            entrypoint: "_start".to_owned(),
            args: Vec::new(),
            env: Vec::new(),
            limits: ExecutionLimits::default(),
        }
    }

    /// Checks the strings of the request.
    pub fn validate(&self) -> (result: Result<(), Failure>)
        ensures
            checked(result, request_problem(*self)),
    {
        proof {
            reveal_strlit("");
            if self.entrypoint@.len() == 0 {
                assert(self.entrypoint@ =~= ""@);
            }
        }
        if same(self.entrypoint.as_str(), "") || contains_char(self.entrypoint.as_str(), '\0') {
            return Err(Failure::new("entrypoint must be a non-empty string without NUL bytes"));
        }
        let ghost args = text::texts(self.args@);
        let count = self.args.len();
        let mut i: usize = 0;
        proof {
            assert(args.take(0) =~= Seq::<Seq<char>>::empty());
        }
        while i < count
            invariant
                i <= count,
                count == self.args@.len(),
                args == text::texts(self.args@),
                args_problem(args.take(i as int)) is None,
                self.entrypoint@.len() > 0,
                !self.entrypoint@.contains('\0'),
            decreases count - i,
        {
            proof {
                assert(args.take(i + 1).drop_last() =~= args.take(i as int));
                assert(args.take(i + 1).last() == self.args@[i as int]@);
            }
            if contains_char(self.args[i].as_str(), '\0') {
                proof {
                    lemma_args_problem_kept(args, i + 1);
                }
                let index = decimal_string(i as u64);
                return Err(
                    Failure::of(concat3("argument ", index.as_str(), " contains a NUL byte")),
                );
            }
            i += 1;
        }
        proof {
            assert(args.take(count as int) =~= args);
        }
        let ghost env = text::text_pairs(self.env@);
        let entries = self.env.len();
        let mut k: usize = 0;
        proof {
            assert(env.take(0) =~= Seq::<(Seq<char>, Seq<char>)>::empty());
        }
        while k < entries
            invariant
                k <= entries,
                entries == self.env@.len(),
                env == text::text_pairs(self.env@),
                envs_problem(env.take(k as int)) is None,
                args_problem(text::texts(self.args@)) is None,
                self.entrypoint@.len() > 0,
                !self.entrypoint@.contains('\0'),
            decreases entries - k,
        {
            proof {
                assert(env.take(k + 1).drop_last() =~= env.take(k as int));
                assert(env.take(k + 1).last() == (self.env@[k as int].0@, self.env@[k as int].1@));
            }
            let entry = &self.env[k];
            match validate_env_entry(entry.0.as_str(), entry.1.as_str()) {
                Ok(()) => {},
                Err(failure) => {
                    proof {
                        lemma_envs_problem_kept(env, k + 1);
                    }
                    return Err(failure);
                },
            }
            k += 1;
        }
        proof {
            assert(env.take(entries as int) =~= env);
        }
        Ok(())
    }

    /// The request with other arguments.
    pub fn with_args(self, args: Vec<String>) -> (request: ExecutionRequest)
        ensures
            request == (ExecutionRequest { args, ..self }),
    {
        ExecutionRequest { args, ..self }
    }

    /// The request with another entrypoint.
    pub fn with_entrypoint(self, entrypoint: String) -> (request: ExecutionRequest)
        ensures
            request == (ExecutionRequest { entrypoint, ..self }),
    {
        ExecutionRequest { entrypoint, ..self }
    }

    /// The request with another environment.
    pub fn with_env(self, env: Vec<(String, String)>) -> (request: ExecutionRequest)
        ensures
            request == (ExecutionRequest { env, ..self }),
    {
        ExecutionRequest { env, ..self }
    }

    /// The request with other limits.
    pub fn with_limits(self, limits: ExecutionLimits) -> (request: ExecutionRequest)
        ensures
            request == (ExecutionRequest { limits, ..self }),
    {
        ExecutionRequest { limits, ..self }
    }

    /// What the guest sees as its arguments: the name of its program and the
    /// arguments of the request.
    pub open spec fn argv(&self) -> Seq<Seq<char>> {
        seq![self.artifact.name()] + text::texts(self.args@)
    }

    /// What the guest sees as its arguments.
    pub fn guest_args(&self) -> (args: Vec<String>)
        ensures
            text::texts(args@) == self.argv(),
    {
        let mut args: Vec<String> = Vec::new();
        args.push(self.artifact.program_name());
        let count = self.args.len();
        let mut i: usize = 0;
        proof {
            assert(text::texts(args@) =~= seq![self.artifact.name()] + text::texts(
                self.args@,
            ).take(0));
        }
        while i < count
            invariant
                i <= count,
                count == self.args@.len(),
                text::texts(args@) == seq![self.artifact.name()] + text::texts(self.args@).take(
                    i as int,
                ),
            decreases count - i,
        {
            let ghost before = args@;
            args.push(self.args[i].clone());
            i += 1;
            proof {
                let all = text::texts(self.args@);
                assert(text::texts(args@) =~= text::texts(before).push(all[i - 1]));
                assert(all.take(i as int) =~= all.take(i - 1).push(all[i - 1]));
                assert(text::texts(args@) =~= seq![self.artifact.name()] + all.take(i as int));
            }
        }
        proof {
            let all = text::texts(self.args@);
            assert(all.take(count as int) =~= all);
        }
        args
    }
}

/// A variable can be given to a guest exactly where it has a name, the name holds
/// neither an equals sign nor a NUL, and the value holds no NUL.
pub proof fn law_valid_variables(key: &str, value: &str, result: Result<(), Failure>)
    requires
        call_ensures(validate_env_entry, (key, value), result),
    ensures
        result is Ok <==> key@.len() > 0 && !key@.contains('=') && !key@.contains('\0')
            && !value@.contains('\0'),
        key@.len() == 0 ==> result is Err && result->Err_0.says(
            "environment variable name must not be empty"@,
        ),
        key@.contains('=') ==> result is Err && result->Err_0.says(
            "environment variable name must not contain '=': "@ + key@,
        ),
        result is Err && key@.len() > 0 && !key@.contains('=') ==> result->Err_0.says(
            "environment variable entries must not contain NUL bytes"@,
        ),
{
    if key@.contains('=') {
        let i = choose|i: int| 0 <= i < key@.len() && key@[i] == '=';
        assert(key@.len() > 0);
    }
}

/// A request is valid exactly where its entrypoint is a name, none of its strings
/// holds a NUL, and no variable is unnamed or has a `=` in its name.
pub proof fn law_requests_are_validated(request: ExecutionRequest, result: Result<(), Failure>)
    requires
        call_ensures(ExecutionRequest::validate, (&request,), result),
    ensures
        result is Ok <==> {
            &&& request.entrypoint@.len() > 0
            &&& !request.entrypoint@.contains('\0')
            &&& forall|i: int|
                0 <= i < request.args@.len() ==> !(#[trigger] request.args@[i])@.contains('\0')
            &&& forall|i: int|
                0 <= i < request.env@.len() ==> {
                    let (key, value) = #[trigger] request.env@[i];
                    key@.len() > 0 && !key@.contains('=') && !key@.contains('\0')
                        && !value@.contains('\0')
                }
        },
{
    law_valid_requests(request);
}

/// The first argument that holds a NUL is the one that is told, by its place.
pub proof fn law_the_first_bad_argument_is_told(args: Seq<Seq<char>>, at: int)
    requires
        0 <= at < args.len(),
        args[at].contains('\0'),
        forall|i: int| 0 <= i < at ==> !(#[trigger] args[i]).contains('\0'),
    ensures
        args_problem(args) == Some(
            "argument "@ + text::decimal(at as nat) + " contains a NUL byte"@,
        ),
{
    let front = args.take(at + 1);
    assert(front.drop_last() =~= args.take(at));
    lemma_args_fine(args.take(at));
    assert forall|i: int| 0 <= i < at implies !(#[trigger] args.take(at)[i]).contains('\0') by {
        assert(args.take(at)[i] == args[i]);
    }
    assert(front.last() == args[at]);
    lemma_args_problem_kept(args, at + 1);
}

/// The first variable that cannot be given is the one that is told.
pub proof fn law_the_first_bad_variable_is_told(env: Seq<(Seq<char>, Seq<char>)>, at: int)
    requires
        0 <= at < env.len(),
        env_problem(env[at].0, env[at].1) is Some,
        forall|i: int| 0 <= i < at ==> env_problem((#[trigger] env[i]).0, env[i].1) is None,
    ensures
        envs_problem(env) == env_problem(env[at].0, env[at].1),
{
    let front = env.take(at + 1);
    assert(front.drop_last() =~= env.take(at));
    lemma_envs_fine(env.take(at));
    assert forall|i: int| 0 <= i < at implies env_problem(
        (#[trigger] env.take(at)[i]).0,
        env.take(at)[i].1,
    ) is None by {
        assert(env.take(at)[i] == env[i]);
    }
    assert(front.last() == env[at]);
    lemma_envs_problem_kept(env, at + 1);
}

/// A guest sees the name of its program first and then the arguments of the
/// request, in their order and as they are.
pub proof fn law_guests_see_their_arguments(request: ExecutionRequest, args: Vec<String>)
    requires
        call_ensures(ExecutionRequest::guest_args, (&request,), args),
    ensures
        args@.len() == request.args@.len() + 1,
        args@[0]@ == request.artifact.name(),
        forall|i: int|
            0 <= i < request.args@.len() ==> (#[trigger] request.args@[i])@ == args@[i + 1]@,
{
    let all = text::texts(args@);
    let given = text::texts(request.args@);
    assert(all.len() == args@.len());
    assert(given.len() == request.args@.len());
    assert(all[0] == args@[0]@);
    assert forall|i: int| 0 <= i < request.args@.len() implies (#[trigger] request.args@[i])@
        == args@[i + 1]@ by {
        assert(given[i] == request.args@[i]@);
        assert(all[i + 1] == args@[i + 1]@);
        assert(all[i + 1] == given[i]);
    }
}

/// A new request asks for the start of its artifact, without arguments, variables
/// or limits, and what it is given later changes that alone.
pub proof fn law_requests_change_only_what_they_are_given(
    artifact: WasmArtifact,
    request: ExecutionRequest,
    args: Vec<String>,
    entrypoint: String,
    env: Vec<(String, String)>,
    limits: ExecutionLimits,
    made: ExecutionRequest,
    with_args: ExecutionRequest,
    with_entrypoint: ExecutionRequest,
    with_env: ExecutionRequest,
    with_limits: ExecutionRequest,
)
    requires
        call_ensures(ExecutionRequest::new, (artifact,), made),
        call_ensures(ExecutionRequest::with_args, (request, args), with_args),
        call_ensures(ExecutionRequest::with_entrypoint, (request, entrypoint), with_entrypoint),
        call_ensures(ExecutionRequest::with_env, (request, env), with_env),
        call_ensures(ExecutionRequest::with_limits, (request, limits), with_limits),
    ensures
        made.artifact == artifact && made.entrypoint@ == "_start"@ && made.args@.len() == 0
            && made.env@.len() == 0 && made.limits.timeout is None
            && made.limits.memory_bytes is None,
        with_args == (ExecutionRequest { args, ..request }),
        with_entrypoint == (ExecutionRequest { entrypoint, ..request }),
        with_env == (ExecutionRequest { env, ..request }),
        with_limits == (ExecutionRequest { limits, ..request }),
{
}

} // verus!
