[Unit]
Description=Aomori world node
After=network-online.target
Wants=network-online.target

[Service]
Type=simple
User=aomori
Group=aomori
StateDirectory=aomori
StateDirectoryMode=0700
EnvironmentFile=/etc/aomori/aomori.env
ExecStart=/usr/local/bin/aomori --listen 127.0.0.1:8091 --data-dir /var/lib/aomori --demo
Restart=on-failure
RestartSec=2s
TimeoutStopSec=20s
UMask=0077
NoNewPrivileges=true
PrivateDevices=true
PrivateTmp=true
ProtectSystem=strict
ProtectHome=true
ProtectKernelModules=true
ProtectKernelTunables=true
ProtectControlGroups=true
RestrictNamespaces=true
RestrictSUIDSGID=true
LockPersonality=true
CapabilityBoundingSet=
AmbientCapabilities=
RestrictAddressFamilies=AF_UNIX AF_INET AF_INET6
SystemCallArchitectures=native

[Install]
WantedBy=multi-user.target
