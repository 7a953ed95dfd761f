# infernal-worker-simple

A minimal worker for the governed work of the infernal-law kernel, written in Verus:
what the worker decides and computes is a library whose behaviour is stated in
contracts and proved.

## What the worker does

The kernel routes accepted requests to destination services as durable, claimable,
fenced pieces of work. It does not know what the work means. In each round the worker

1. renews its own registration lease, where it enrolled itself and at most twenty
   seconds are left;
2. lists its eligible routes with `GET /v1/routes/eligible`, oldest first;
3. claims the oldest with `POST /v1/routes/{route_id}/claims`;
4. reads the request behind it with `GET /v1/routes/{route_id}/request`;
5. executes it, which here means to acknowledge it;
6. completes the claim with `POST /v1/claims/{id}/complete`; and
7. rests.

A lost race, an unknown route and a superseded claim are no errors. A pass or a
renewal that does fail is made again in the next round.

The kernel takes the identity of a claimant from the signature of the call, so what
claims a route must also complete it: the worker does both.

## Layout

- `src/`: the verified library. `worker` holds one pass as a machine that names the
  next call and takes its reply, and `work_once`, which drives it through a
  `KernelPort`. `work_loop` is the same for the whole life of the process, and
  `startup` for what comes before.
  `kernel_client` says what is signed and sent for each call. `health` answers
  probes. `config` and `enrollment` read the environment. Each module ends with the
  laws that hold across its functions.
- `tests/`: the library on concrete values.
- `app/`: the process around it: environment, files, sockets, threads, and signing
  and sending with `infernal_client`.

JSON, base64url, UUIDs, lossy decoding and the clock come from outside. Each such call
is one small function whose doc comment says what is claimed of it.

## Configuration

| Variable | | |
| --- | --- | --- |
| `KERNEL_AUTHORITY` | required | the kernel's host and, if needed, port |
| `WORKER_SERVICE_ID` | required | this service's own ID, a UUID |
| `CLAIM_LEASE_SECONDS` | 300 | the lease proposed with each claim |
| `POLL_INTERVAL_SECONDS` | 5 | the rest between two rounds |
| `WORK_DURATION_SECONDS` | 0 | how long work is held before it is completed |
| `KERNEL_CA_CERT_PATH` | | one more certificate authority to trust |
| `ENROLLMENT_CHALLENGE` | | asks for enrollment: 32 bytes in base64url |
| `SERVICE_ENDPOINT`, `POD_UID` | with a challenge | submitted to enroll |
| `WORKLOAD_TOKEN_PATH` | `/var/run/secrets/infernal-law-enrollment/token` | the workload token |
| `HEALTH_ADDRESS` | `0.0.0.0:8090` | where probes are answered |

A number that cannot be read counts as not set.
