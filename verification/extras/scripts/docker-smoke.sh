#!/usr/bin/env bash
# Builds the image, starts the node, checks its identity, storage and
# health, restarts it on the same volume and checks it again.
set -euo pipefail

docker info >/dev/null
export AOMORI_ADMIN_TOKEN="${AOMORI_ADMIN_TOKEN:-$(openssl rand -hex 32)}"
compose() { docker compose --project-name aomori-smoke "$@"; }
trap 'compose down --volumes >/dev/null 2>&1 || true' EXIT

wait_ready() {
  for _ in $(seq 1 60); do
    if curl --fail --silent http://127.0.0.1:8091/ready >/dev/null; then
      return 0
    fi
    sleep 1
  done
  echo "node did not become ready" >&2
  return 1
}

compose up -d --build aomori
wait_ready
curl --fail --silent http://127.0.0.1:8091/health >/dev/null

container="$(compose ps -q aomori)"
test "$(docker inspect --format '{{.Config.User}}' "$container")" = "10001:10001"
test "$(docker inspect --format '{{.HostConfig.ReadonlyRootfs}}' "$container")" = "true"
docker inspect --format '{{json .HostConfig.CapDrop}}' "$container" | grep -q ALL
compose exec -T aomori test -f /data/state.json

compose down
compose up -d aomori
wait_ready
curl --fail --silent http://127.0.0.1:8091/health >/dev/null
compose exec -T aomori test -f /data/state.json
echo "docker smoke passed"
