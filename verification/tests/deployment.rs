use std::collections::BTreeMap;

/// The text of `extras/deploy/systemd/aomori.service`.
const SERVICE: &str = r##"[Unit]
Description=Aomori world node
After=network-online.target
Wants=network-online.target

[Service]
Type=simple
User=aomori
Group=aomori
StateDirectory=aomori
StateDirectoryMode=0700
EnvironmentFile=/etc/aomori/aomori.env
ExecStart=/usr/local/bin/aomori --listen 127.0.0.1:8091 --data-dir /var/lib/aomori --demo
Restart=on-failure
RestartSec=2s
TimeoutStopSec=20s
UMask=0077
NoNewPrivileges=true
PrivateDevices=true
PrivateTmp=true
ProtectSystem=strict
ProtectHome=true
ProtectKernelModules=true
ProtectKernelTunables=true
ProtectControlGroups=true
RestrictNamespaces=true
RestrictSUIDSGID=true
LockPersonality=true
CapabilityBoundingSet=
AmbientCapabilities=
RestrictAddressFamilies=AF_UNIX AF_INET AF_INET6
SystemCallArchitectures=native

[Install]
WantedBy=multi-user.target
"##;

/// The text of `extras/deploy/systemd/aomori.env.example`.
const ENVIRONMENT: &str = r##"# Environment for the aomori systemd unit. Install as /etc/aomori/aomori.env
# (root-owned, mode 0600) and replace every placeholder before starting.

# Bearer token for the administrator RPC methods.
AOMORI_ADMIN_TOKEN=replace-with-a-long-random-token

# Exact browser origins allowed by CORS, comma separated.
AOMORI_CORS_ORIGINS=https://mud.example.com

# Exact proxy IPs whose X-Forwarded-For entries are trusted, comma separated.
AOMORI_TRUSTED_PROXIES=

# RPC requests per second and burst size for each client.
AOMORI_RPC_RATE_LIMIT=100
"##;

/// The text of `extras/Dockerfile`.
const DOCKERFILE: &str = r##"FROM rust:1-bookworm AS build
WORKDIR /src
COPY . .
RUN cargo build --release --locked

FROM debian:bookworm-slim
RUN apt-get update \
    && apt-get install -y --no-install-recommends ca-certificates curl \
    && rm -rf /var/lib/apt/lists/* \
    && groupadd --system --gid 10001 aomori \
    && useradd --system --uid 10001 --gid 10001 --home-dir /data --shell /usr/sbin/nologin aomori \
    && mkdir /data \
    && chown 10001:10001 /data
COPY --from=build /src/target/release/aomori /usr/local/bin/aomori
USER 10001:10001
WORKDIR /data
VOLUME ["/data"]
EXPOSE 8091
HEALTHCHECK --interval=10s --timeout=3s --start-period=10s --retries=3 \
    CMD curl --fail --silent http://127.0.0.1:8091/ready || exit 1
ENTRYPOINT ["/usr/local/bin/aomori"]
CMD ["--listen", "0.0.0.0:8091", "--data-dir", "/data", "--demo"]
"##;

/// The text of `extras/compose.yaml`.
const COMPOSE: &str = r##"services:
  aomori:
    build: .
    image: aomori:local
    restart: unless-stopped
    ports:
      - "${AOMORI_PUBLISH_ADDRESS:-127.0.0.1}:${AOMORI_PORT:-8091}:8091"
    environment:
      AOMORI_ADMIN_TOKEN: "${AOMORI_ADMIN_TOKEN:?set AOMORI_ADMIN_TOKEN in .env}"
      AOMORI_CORS_ORIGINS: "${AOMORI_CORS_ORIGINS:-http://127.0.0.1:5173,http://localhost:5173}"
      AOMORI_TRUSTED_PROXIES: "${AOMORI_TRUSTED_PROXIES:-}"
    read_only: true
    cap_drop:
      - ALL
    security_opt:
      - no-new-privileges:true
    volumes:
      - aomori-data:/data
    tmpfs:
      - /tmp:size=16m,mode=1777
    stop_grace_period: 20s

volumes:
  aomori-data:
"##;

/// The text of `extras/scripts/docker-smoke.sh`.
const DOCKER_SMOKE: &str = r##"#!/usr/bin/env bash
# Builds the image, starts the node, checks its identity, storage and
# health, restarts it on the same volume and checks it again.
set -euo pipefail

docker info >/dev/null
export AOMORI_ADMIN_TOKEN="${AOMORI_ADMIN_TOKEN:-$(openssl rand -hex 32)}"
compose() { docker compose --project-name aomori-smoke "$@"; }
trap 'compose down --volumes >/dev/null 2>&1 || true' EXIT

wait_ready() {
  for _ in $(seq 1 60); do
    if curl --fail --silent http://127.0.0.1:8091/ready >/dev/null; then
      return 0
    fi
    sleep 1
  done
  echo "node did not become ready" >&2
  return 1
}

compose up -d --build aomori
wait_ready
curl --fail --silent http://127.0.0.1:8091/health >/dev/null

container="$(compose ps -q aomori)"
test "$(docker inspect --format '{{.Config.User}}' "$container")" = "10001:10001"
test "$(docker inspect --format '{{.HostConfig.ReadonlyRootfs}}' "$container")" = "true"
docker inspect --format '{{json .HostConfig.CapDrop}}' "$container" | grep -q ALL
compose exec -T aomori test -f /data/state.json

compose down
compose up -d aomori
wait_ready
curl --fail --silent http://127.0.0.1:8091/health >/dev/null
compose exec -T aomori test -f /data/state.json
echo "docker smoke passed"
"##;

fn service_directives(contents: &str) -> BTreeMap<String, String> {
    contents
        .lines()
        .filter(|line| !line.is_empty() && !line.starts_with(['#', '[']))
        .map(|line| {
            let (key, value) = line.split_once('=').unwrap();
            (key.to_string(), value.to_string())
        })
        .collect()
}

fn directive(directives: &BTreeMap<String, String>, key: &str) -> String {
    directives.get(key).cloned().unwrap_or_else(|| panic!("missing systemd directive: {key}"))
}

#[test]
fn systemd_service_keeps_runtime_and_secret_boundaries() {
    let service = SERVICE.to_string();
    let directives = service_directives(&service);
    assert_eq!(directive(&directives, "User"), "aomori");
    assert_eq!(directive(&directives, "Group"), "aomori");
    assert_eq!(directive(&directives, "StateDirectory"), "aomori");
    assert_eq!(directive(&directives, "StateDirectoryMode"), "0700");
    assert_eq!(directive(&directives, "EnvironmentFile"), "/etc/aomori/aomori.env");

    let command = directive(&directives, "ExecStart");
    assert!(command.starts_with("/usr/local/bin/aomori "));
    assert!(command.contains("--listen 127.0.0.1:8091"));
    assert!(command.contains("--data-dir /var/lib/aomori"));
    assert!(!command.contains("--admin-token"));
    assert!(!service.contains("AOMORI_ADMIN_TOKEN"));
    assert!(!service.contains("0.0.0.0"));

    for key in [
        "NoNewPrivileges",
        "PrivateDevices",
        "PrivateTmp",
        "ProtectSystem",
        "ProtectHome",
        "ProtectKernelModules",
        "ProtectKernelTunables",
        "RestrictNamespaces",
        "RestrictSUIDSGID",
    ] {
        let value = directive(&directives, key);
        assert!(matches!(value.as_str(), "true" | "strict"), "{key}={value}");
    }
    assert_eq!(directive(&directives, "CapabilityBoundingSet"), "");
    assert_eq!(directive(&directives, "AmbientCapabilities"), "");
    assert_eq!(directive(&directives, "RestrictAddressFamilies"), "AF_UNIX AF_INET AF_INET6");
    assert_eq!(directive(&directives, "TimeoutStopSec"), "20s");
    assert_eq!(directive(&directives, "UMask"), "0077");
}

#[test]
fn systemd_environment_is_an_explicit_non_secret_template() {
    let environment = ENVIRONMENT;
    assert!(environment.contains("AOMORI_ADMIN_TOKEN=replace-with-a-long-random-token"));
    assert!(environment.contains("AOMORI_CORS_ORIGINS=https://mud.example.com"));
    assert!(environment.contains("AOMORI_TRUSTED_PROXIES="));
    assert!(!environment.contains("AOMORI_PUBLISH_ADDRESS"));
    assert!(!environment.contains("AOMORI_PORT"));
}

#[test]
fn docker_runtime_and_compose_keep_security_boundaries() {
    let dockerfile = DOCKERFILE;
    for required in [
        "USER 10001:10001",
        "WORKDIR /data",
        "VOLUME [\"/data\"]",
        "HEALTHCHECK",
        "http://127.0.0.1:8091/ready",
        "CMD [\"--listen\", \"0.0.0.0:8091\", \"--data-dir\", \"/data\", \"--demo\"]",
    ] {
        assert!(dockerfile.contains(required), "missing Dockerfile contract: {required}");
    }
    assert!(!dockerfile.contains("AOMORI_ADMIN_TOKEN"));

    let compose = COMPOSE;
    for required in [
        "${AOMORI_PUBLISH_ADDRESS:-127.0.0.1}:${AOMORI_PORT:-8091}:8091",
        "AOMORI_ADMIN_TOKEN: \"${AOMORI_ADMIN_TOKEN:?set AOMORI_ADMIN_TOKEN in .env}\"",
        "read_only: true",
        "- ALL",
        "- no-new-privileges:true",
        "- aomori-data:/data",
        "- /tmp:size=16m,mode=1777",
        "stop_grace_period: 20s",
    ] {
        assert!(compose.contains(required), "missing Compose contract: {required}");
    }
    assert!(!compose.contains("replace-with-a-long-random-token"));
}

#[test]
fn docker_smoke_covers_runtime_identity_storage_and_restart() {
    let smoke = DOCKER_SMOKE;
    for required in [
        "docker info",
        "up -d aomori",
        "/ready",
        "/health",
        "{{.Config.User}}",
        "{{.HostConfig.ReadonlyRootfs}}",
        "{{json .HostConfig.CapDrop}}",
        "test -f /data/state.json",
        "down\n",
        "up -d aomori",
    ] {
        assert!(smoke.contains(required), "missing smoke check: {required}");
    }
}
