FROM rust:1-bookworm AS build
WORKDIR /src
COPY . .
RUN cargo build --release --locked

FROM debian:bookworm-slim
RUN apt-get update \
    && apt-get install -y --no-install-recommends ca-certificates curl \
    && rm -rf /var/lib/apt/lists/* \
    && groupadd --system --gid 10001 aomori \
    && useradd --system --uid 10001 --gid 10001 --home-dir /data --shell /usr/sbin/nologin aomori \
    && mkdir /data \
    && chown 10001:10001 /data
COPY --from=build /src/target/release/aomori /usr/local/bin/aomori
USER 10001:10001
WORKDIR /data
VOLUME ["/data"]
EXPOSE 8091
HEALTHCHECK --interval=10s --timeout=3s --start-period=10s --retries=3 \
    CMD curl --fail --silent http://127.0.0.1:8091/ready || exit 1
ENTRYPOINT ["/usr/local/bin/aomori"]
CMD ["--listen", "0.0.0.0:8091", "--data-dir", "/data", "--demo"]
